//! Server addresses: `host`, `host:port`, or `[v6]:port`.

use vstd::prelude::*;

use crate::text::{
    chars_of, decimal, is_space, push_all, push_decimal, string_between, string_from, trim, trim_bounds,
    trim_end, trim_start,
};

verus! {

/// Default port a Minecraft Java Edition server listens on.
pub const DEFAULT_PORT: u16 = 25565;

/// A server address split into host and port.
#[derive(Debug, Clone, PartialEq, Eq)]
pub struct Address {
    pub host: String,
    pub port: u16,
}

/// Why an address was refused.
#[derive(Debug, Clone, PartialEq, Eq)]
pub enum AddressError {
    /// Nothing but whitespace was given.
    Empty,
    /// Brackets and a port, but no host.
    NoHost,
    /// The text after the last colon is not a port number.
    InvalidPort(String),
}

impl AddressError {
    pub fn message(&self) -> (r: String)
        ensures
            r@ == match self {
                AddressError::Empty => "server address is empty"@,
                AddressError::NoHost => "server address has no host"@,
                AddressError::InvalidPort(port) => "invalid port: "@ + port@,
            },
    {
        match self {
            AddressError::Empty => "server address is empty".to_owned(),
            AddressError::NoHost => "server address has no host".to_owned(),
            AddressError::InvalidPort(port) => {
                let mut out = chars_of("invalid port: ");
                push_all(&mut out, &chars_of(port.as_str()));
                string_from(&out)
            },
        }
    }
}

/// Whether `c` is an ASCII digit.
pub open spec fn is_digit(c: char) -> bool {
    '0' <= c && c <= '9'
}

/// The value of a run of ASCII digits.
pub open spec fn digits_value(s: Seq<char>) -> nat
    decreases s.len(),
{
    if s.len() == 0 {
        0
    } else {
        digits_value(s.drop_last()) * 10 + ((s.last() as u32) - 48) as nat
    }
}

/// What `str::parse` makes of `s` for an unsigned integer type whose largest
/// value is `max`: an optional `+`, then one or more ASCII digits, with a value
/// no larger than `max`.
pub open spec fn parse_unsigned(s: Seq<char>, max: nat) -> Option<nat> {
    let digits = unsigned_digits(s);
    if digits.len() > 0 && (forall|i: int| 0 <= i < digits.len() ==> is_digit(#[trigger] digits[i]))
        && digits_value(digits) <= max {
        Some(digits_value(digits))
    } else {
        None
    }
}

/// The digits of an unsigned number: `s` without a leading `+`, unless the
/// `+` is all there is.
pub open spec fn unsigned_digits(s: Seq<char>) -> Seq<char> {
    if s.len() > 1 && s[0] == '+' { s.drop_first() } else { s }
}

pub proof fn lemma_digits_step(s: Seq<char>, i: int)
    requires
        0 <= i < s.len(),
    ensures
        digits_value(s.take(i + 1)) == digits_value(s.take(i)) * 10 + ((s[i] as u32) - 48) as nat,
{
    assert(s.take(i + 1).drop_last() =~= s.take(i));
}

/// Parse `s[start..end]` as `str::parse` would for an unsigned type with
/// largest value `max`.
pub fn parse_unsigned_at(s: &Vec<char>, start: usize, end: usize, max: u64) -> (r: Option<u64>)
    requires
        start <= end <= s@.len(),
    ensures
        r == match parse_unsigned(s@.subrange(start as int, end as int), max as nat) {
            Some(value) => Some(value as u64),
            None => None::<u64>,
        },
{
    let ghost piece = s@.subrange(start as int, end as int);
    let mut from = start;
    if end - start > 1 && s[start] == '+' {
        from = start + 1;
    }
    let ghost digits = s@.subrange(from as int, end as int);
    proof {
        if end - start > 1 && s@[start as int] == '+' {
            assert(digits =~= piece.drop_first());
        } else {
            assert(digits =~= piece);
        }
    }
    if from == end {
        return None;
    }
    let mut value: u64 = 0;
    let mut i = from;
    while i < end
        invariant
            start <= from <= i <= end <= s@.len(),
            digits == s@.subrange(from as int, end as int),
            piece == s@.subrange(start as int, end as int),
            digits == unsigned_digits(piece),
            forall|j: int| 0 <= j < i - from ==> is_digit(#[trigger] digits[j]),
            value == digits_value(digits.take(i - from)),
            value <= max,
        decreases end - i,
    {
        let c = s[i];
        if !('0' <= c && c <= '9') {
            proof {
                assert(!is_digit(digits[i - from]));
            }
            return None;
        }
        let d = (c as u32 - 48) as u64;
        proof {
            lemma_digits_step(digits, i - from);
            assert(digits[i - from] == c);
        }
        let next: u128 = value as u128 * 10 + d as u128;
        if next > max as u128 {
            proof {
                assert(digits.take(i - from + 1) == digits.take(i + 1 - from));
                lemma_digits_over(digits, (i - from + 1) as int, max as nat);
            }
            return None;
        }
        value = next as u64;
        i += 1;
    }
    proof {
        assert(digits.take(end - from) =~= digits);
    }
    Some(value)
}

/// Once the digits so far pass `max`, every longer run of digits does too.
proof fn lemma_digits_over(digits: Seq<char>, k: int, max: nat)
    requires
        1 <= k <= digits.len(),
        digits_value(digits.take(k)) > max,
    ensures
        (forall|j: int| 0 <= j < digits.len() ==> is_digit(#[trigger] digits[j])) ==> digits_value(digits) > max,
{
    if forall|j: int| 0 <= j < digits.len() ==> is_digit(#[trigger] digits[j]) {
        lemma_digits_grow(digits, k);
    }
}

proof fn lemma_digits_grow(digits: Seq<char>, k: int)
    requires
        1 <= k <= digits.len(),
        forall|j: int| 0 <= j < digits.len() ==> is_digit(#[trigger] digits[j]),
    ensures
        digits_value(digits) >= digits_value(digits.take(k)),
    decreases digits.len() - k,
{
    if k < digits.len() {
        lemma_digits_step(digits, k);
        lemma_digits_grow(digits, k + 1);
    } else {
        assert(digits.take(k) =~= digits);
    }
}

/// The last position of `c` in `s`, if any.
pub open spec fn last_index_of(s: Seq<char>, c: char) -> Option<int>
    decreases s.len(),
{
    if s.len() == 0 {
        None
    } else if s.last() == c {
        Some(s.len() - 1)
    } else {
        last_index_of(s.drop_last(), c)
    }
}

/// `s` with every leading `[` and every trailing `]` removed, as
/// `trim_start_matches('[')` then `trim_end_matches(']')` leave it.
pub open spec fn unbracket(s: Seq<char>) -> Seq<char> {
    strip_trailing(strip_leading(s, '['), ']')
}

pub open spec fn strip_leading(s: Seq<char>, c: char) -> Seq<char>
    decreases s.len(),
{
    if s.len() > 0 && s[0] == c { strip_leading(s.drop_first(), c) } else { s }
}

pub open spec fn strip_trailing(s: Seq<char>, c: char) -> Seq<char>
    decreases s.len(),
{
    if s.len() > 0 && s.last() == c { strip_trailing(s.drop_last(), c) } else { s }
}

/// How an address parses: the host text and the port, or why it is refused.
pub open spec fn parse_address(input: Seq<char>, default_port: u16) -> Result<(Seq<char>, u16), AddressError> {
    let text = trim(input);
    if text.len() == 0 {
        Err(AddressError::Empty)
    } else {
        let split: Option<int> = match last_index_of(text, ':') {
            Some(k) => if text[0] == '[' && text.last() == ']' { None } else { Some(k) },
            None => None,
        };
        let host = unbracket(match split {
            Some(k) => text.take(k),
            None => text,
        });
        if host.len() == 0 {
            Err(AddressError::NoHost)
        } else {
            match split {
                None => Ok((host, default_port)),
                Some(k) => {
                    let port = text.subrange(k + 1, text.len() as int);
                    match parse_unsigned(port, u16::MAX as nat) {
                        Some(value) => Ok((host, value as u16)),
                        None => Err(AddressError::InvalidPort(arbitrary())),
                    }
                },
            }
        }
    }
}

/// The port text of an address refused for its port.
pub open spec fn port_text(input: Seq<char>) -> Seq<char> {
    let text = trim(input);
    let k = last_index_of(text, ':').unwrap();
    text.subrange(k + 1, text.len() as int)
}

/// An address written out: `host:port`, with a host that holds a colon in
/// brackets.
pub open spec fn address_text(host: Seq<char>, port: u16) -> Seq<char> {
    if host.contains(':') {
        seq!['['] + host + seq![']', ':'] + decimal(port as nat)
    } else {
        host + seq![':'] + decimal(port as nat)
    }
}

pub(crate) proof fn lemma_decimal_digits(n: nat)
    ensures
        decimal(n).len() > 0,
        forall|i: int| 0 <= i < decimal(n).len() ==> is_digit(#[trigger] decimal(n)[i]),
        digits_value(decimal(n)) == n,
    decreases n,
{
    let k = n % 10;
    assert(crate::text::digit_char(k as int) as u32 == k + 48);
    if n >= 10 {
        lemma_decimal_digits(n / 10);
        let d = decimal(n);
        assert(d.drop_last() =~= decimal(n / 10));
        assert forall|i: int| 0 <= i < d.len() implies is_digit(#[trigger] d[i]) by {
            if i < d.len() - 1 {
                assert(d[i] == decimal(n / 10)[i]);
            }
        }
        assert(d.last() == crate::text::digit_char(k as int));
        assert(digits_value(d) == digits_value(decimal(n / 10)) * 10 + k);
        assert((n / 10) * 10 + k == n);
    } else {
        let d = decimal(n);
        assert(d.drop_last() =~= Seq::<char>::empty());
        assert(digits_value(d) == digits_value(d.drop_last()) * 10 + ((d.last() as u32) - 48) as nat);
    }
}

proof fn lemma_last_colon(front: Seq<char>, digits: Seq<char>)
    requires
        forall|i: int| 0 <= i < digits.len() ==> is_digit(#[trigger] digits[i]),
    ensures
        last_index_of(front + seq![':'] + digits, ':') == Some(front.len() as int),
    decreases digits.len(),
{
    let s = front + seq![':'] + digits;
    if digits.len() == 0 {
        assert(s.last() == ':');
    } else {
        assert(s.last() == digits.last());
        assert(s.drop_last() =~= front + seq![':'] + digits.drop_last());
        lemma_last_colon(front, digits.drop_last());
    }
}

proof fn lemma_unbracket_plain(host: Seq<char>)
    requires
        host.len() > 0,
        host[0] != '[',
        host.last() != ']',
    ensures
        unbracket(host) == host,
        unbracket(seq!['['] + host + seq![']']) == host,
{
    let wrapped = seq!['['] + host + seq![']'];
    assert(wrapped.drop_first() =~= host + seq![']']);
    assert((host + seq![']']).drop_last() =~= host);
    assert(strip_leading(host + seq![']'], '[') == host + seq![']']);
    assert(strip_leading(wrapped, '[') == host + seq![']']);
}

/// Writing an address out and reading it back gives the same address, for a
/// host that parsing can give: not blank at either end and not itself
/// bracketed.
pub proof fn lemma_text_parses_back(host: Seq<char>, port: u16, default_port: u16)
    requires
        host.len() > 0,
        !is_space(host[0]),
        !is_space(host.last()),
        host[0] != '[',
        host.last() != ']',
    ensures
        parse_address(address_text(host, port), default_port) == Ok::<(Seq<char>, u16), AddressError>(
            (host, port),
        ),
{
    let digits = decimal(port as nat);
    lemma_decimal_digits(port as nat);
    lemma_unbracket_plain(host);
    let front = if host.contains(':') { seq!['['] + host + seq![']'] } else { host };
    let text = front + seq![':'] + digits;
    assert(address_text(host, port) =~= text);
    assert(text.last() == digits.last());
    assert(!is_space(digits.last()));
    assert(text[0] == front[0]);
    assert(trim_start(text) == text);
    assert(trim_end(text) == text);
    lemma_last_colon(front, digits);
    assert(text.take(front.len() as int) =~= front);
    assert(text.subrange(front.len() as int + 1, text.len() as int) =~= digits);
    assert(unsigned_digits(digits) == digits);
    assert(digits.last() != ']');
}

fn strip_bounds(s: &Vec<char>, start: usize, end: usize) -> (r: (usize, usize))
    requires
        start <= end <= s@.len(),
    ensures
        start <= r.0 <= r.1 <= end,
        s@.subrange(r.0 as int, r.1 as int) == unbracket(s@.subrange(start as int, end as int)),
{
    let mut from = start;
    while from < end && s[from] == '['
        invariant
            start <= from <= end <= s@.len(),
            strip_leading(s@.subrange(start as int, end as int), '[') == strip_leading(
                s@.subrange(from as int, end as int),
                '[',
            ),
        decreases end - from,
    {
        assert(s@.subrange(from as int, end as int).drop_first() =~= s@.subrange(from + 1, end as int));
        from += 1;
    }
    assert(strip_leading(s@.subrange(from as int, end as int), '[') == s@.subrange(from as int, end as int));
    let mut to = end;
    while to > from && s[to - 1] == ']'
        invariant
            from <= to <= end,
            end <= s@.len(),
            strip_trailing(s@.subrange(from as int, end as int), ']') == strip_trailing(
                s@.subrange(from as int, to as int),
                ']',
            ),
        decreases to,
    {
        assert(s@.subrange(from as int, to as int).drop_last() =~= s@.subrange(from as int, to - 1));
        to -= 1;
    }
    (from, to)
}

impl Address {
    /// Parse `host`, `host:port`, or `[v6]:port`. Missing ports fall back to
    /// [`DEFAULT_PORT`].
    pub fn parse(input: &str) -> (r: Result<Address, AddressError>)
        ensures
            Address::parsed(input@, DEFAULT_PORT, r),
    {
        Address::parse_with_default_port(input, DEFAULT_PORT)
    }

    /// Whether `r` is what parsing `input` gives.
    pub open spec fn parsed(input: Seq<char>, default_port: u16, r: Result<Address, AddressError>) -> bool {
        match parse_address(input, default_port) {
            Ok((host, port)) => r matches Ok(address) && address.host@ == host && address.port == port,
            Err(AddressError::InvalidPort(_)) => r matches Err(AddressError::InvalidPort(text))
                && text@ == port_text(input),
            Err(error) => r == Err::<Address, AddressError>(error),
        }
    }

    /// As [`Address::parse`], but with a caller-chosen fallback port. RCON
    /// listens on a different port from the game itself.
    #[verifier::rlimit(30)]
    pub fn parse_with_default_port(input: &str, default_port: u16) -> (r: Result<Address, AddressError>)
        ensures
            Address::parsed(input@, default_port, r),
    {
        let raw = chars_of(input);
        let (start, end) = trim_bounds(&raw, 0, raw.len());
        let ghost text = raw@.subrange(start as int, end as int);
        proof {
            assert(raw@.subrange(0, raw@.len() as int) =~= raw@);
        }
        if start == end {
            return Err(AddressError::Empty);
        }
        // The last colon, if any.
        proof {
            assert(text.take(end - start) =~= text);
        }
        let mut k = end;
        let mut found = false;
        while k > start && !found
            invariant
                start <= k <= end <= raw@.len(),
                text == raw@.subrange(start as int, end as int),
                found ==> k > start && raw@[k - 1] == ':' && last_index_of(text, ':') == Some(k - 1 - start),
                !found ==> last_index_of(text, ':') == last_index_of(text.take(k - start), ':'),
            decreases k - start + (if found { 0int } else { 1 }),
        {
            if raw[k - 1] == ':' {
                found = true;
                proof {
                    assert(text.take(k - start).last() == ':');
                }
            } else {
                proof {
                    assert(text.take(k - start).drop_last() =~= text.take(k - 1 - start));
                }
                k -= 1;
            }
        }
        proof {
            if !found {
                assert(text.take(0) =~= Seq::<char>::empty());
            }
        }
        let bracketed = raw[start] == '[' && raw[end - 1] == ']';
        let split = found && !bracketed;
        let host_end = if split { k - 1 } else { end };
        proof {
            if split {
                assert(text.take(k - 1 - start) =~= raw@.subrange(start as int, k - 1));
            } else {
                assert(text =~= raw@.subrange(start as int, end as int));
            }
        }
        let (host_start, host_stop) = strip_bounds(&raw, start, host_end);
        if host_start == host_stop {
            return Err(AddressError::NoHost);
        }
        let host = string_between(&raw, host_start, host_stop);
        if !split {
            return Ok(Address { host, port: default_port });
        }
        proof {
            assert(text.subrange(k - start, text.len() as int) =~= raw@.subrange(k as int, end as int));
        }
        match parse_unsigned_at(&raw, k, end, u16::MAX as u64) {
            Some(port) => Ok(Address { host, port: port as u16 }),
            None => Err(AddressError::InvalidPort(string_between(&raw, k, end))),
        }
    }

    /// The address as `host:port`, with an IPv6 host in brackets.
    pub fn text(&self) -> (r: String)
        ensures
            r@ == address_text(self.host@, self.port),
    {
        let host = chars_of(self.host.as_str());
        let mut has_colon = false;
        let mut i: usize = 0;
        while i < host.len()
            invariant
                i <= host@.len(),
                host@ == self.host@,
                has_colon == host@.take(i as int).contains(':'),
            decreases host@.len() - i,
        {
            proof {
                assert(host@.take(i + 1) =~= host@.take(i as int).push(host@[i as int]));
            }
            if host[i] == ':' {
                has_colon = true;
                proof {
                    assert(host@.take(i + 1)[i as int] == ':');
                }
            }
            i += 1;
        }
        assert(host@.take(i as int) =~= host@);
        let mut out: Vec<char> = Vec::new();
        if has_colon {
            out.push('[');
            push_all(&mut out, &host);
            out.push(']');
        } else {
            push_all(&mut out, &host);
        }
        out.push(':');
        push_decimal(&mut out, self.port as u128);
        string_from(&out)
    }
}

} // verus!
