use mctop::config::WorldConfig;
use mctop::metrics::WorldUsage;
use mctop::source::disk::{free_space, measure, scan, world_name, Entry, Mount, Walk};

fn walk_through(root: &str, listings: &[(&str, Option<Vec<Entry>>)], root_exists: bool) -> (u64, u64, bool) {
    let mut walk = Walk::new(root.to_owned());
    while let Some(directory) = walk.next() {
        let listing = listings
            .iter()
            .find(|(path, _)| *path == directory)
            .and_then(|(_, entries)| entries.clone());
        match listing {
            Some(entries) => walk.listed(entries),
            None => walk.unreadable(&directory, root_exists),
        }
    }
    walk.totals()
}

#[test]
fn sums_a_tree() {
    let totals = walk_through(
        "/srv/world",
        &[
            (
                "/srv/world",
                Some(vec![
                    Entry::File(Some(5)),
                    Entry::Directory("/srv/world/region".into()),
                ]),
            ),
            ("/srv/world/region", Some(vec![Entry::File(Some(100))])),
        ],
        true,
    );
    assert_eq!(totals, (105, 2, false));
}

#[test]
fn a_missing_world_measures_as_empty() {
    let totals = walk_through("/mctop/definitely/not/here", &[], false);
    assert_eq!((totals.0, totals.1), (0, 0));
    assert!(!totals.2);
}

#[test]
fn an_unreadable_subdirectory_makes_the_walk_partial() {
    let totals = walk_through(
        "/srv/world",
        &[(
            "/srv/world",
            Some(vec![
                Entry::File(Some(7)),
                Entry::Directory("/srv/world/locked".into()),
            ]),
        )],
        true,
    );
    assert_eq!(totals, (7, 1, true));
}

#[test]
fn links_are_not_followed_and_unreadable_entries_are_noted() {
    let totals = walk_through(
        "/w",
        &[(
            "/w",
            Some(vec![Entry::Link, Entry::File(None), Entry::File(Some(3))]),
        )],
        true,
    );
    assert_eq!(totals, (3, 1, true));
    let totals = walk_through("/w", &[("/w", Some(vec![Entry::Unreadable]))], true);
    assert_eq!(totals, (0, 0, true));
}

#[test]
fn breaks_a_world_down_by_subdirectory() {
    let world = WorldConfig {
        name: None,
        path: "/tmp/mctop-test-disk-breakdown".into(),
    };
    let usage = measure(&world, (650, 4, false), 300, 200, 100);
    assert_eq!(usage.name, "mctop-test-disk-breakdown");
    assert_eq!(usage.bytes, 650);
    assert_eq!(usage.region_bytes, 300);
    assert_eq!(usage.entity_bytes, 200);
    assert_eq!(usage.poi_bytes, 100);
}

#[test]
fn a_world_is_named_by_config_then_folder_then_path() {
    let named = WorldConfig {
        name: Some("overworld".into()),
        path: "/srv/world".into(),
    };
    assert_eq!(world_name(&named), "overworld");
    let unnamed = WorldConfig {
        name: None,
        path: "/srv/world_nether/".into(),
    };
    assert_eq!(world_name(&unnamed), "world_nether");
    let root = WorldConfig {
        name: None,
        path: "/".into(),
    };
    assert_eq!(world_name(&root), "/");
}

fn usage(name: &str, bytes: u64) -> WorldUsage {
    WorldUsage {
        name: name.into(),
        path: format!("/srv/{name}"),
        bytes,
        files: 1,
        region_bytes: 0,
        entity_bytes: 0,
        poi_bytes: 0,
        partial: false,
    }
}

#[test]
fn totals_across_worlds() {
    let first = measure(
        &WorldConfig {
            name: Some("overworld".into()),
            path: "/srv/world".into(),
        },
        (10, 1, false),
        0,
        0,
        0,
    );
    let second = measure(
        &WorldConfig {
            name: None,
            path: "/srv/world_nether".into(),
        },
        (10, 1, false),
        0,
        0,
        0,
    );
    let disk = scan(vec![first, second], Some((1, 2)));
    assert_eq!(disk.total(), 20);
    assert_eq!(disk.worlds[0].name, "overworld");
    assert_eq!(disk.worlds[1].name, "world_nether");
    assert_eq!(disk.free, Some((1, 2)));
    assert!(disk.scanned_at.is_some());
    assert!(!disk.scanning);
    assert_eq!(scan(vec![usage("a", 1)], None).total(), 1);
}

fn mount(parts: &[&str], available: u64) -> Mount {
    let components: Vec<String> = parts.iter().map(|part| part.to_string()).collect();
    let name_length = if parts.len() == 1 {
        1
    } else {
        parts[1..].iter().map(|part| part.len() + 1).sum()
    };
    Mount {
        components,
        name_length,
        available,
        total: available * 2,
    }
}

#[test]
fn the_longest_mount_point_holding_the_path_wins() {
    let path: Vec<String> = ["/", "srv", "minecraft", "world"]
        .iter()
        .map(|part| part.to_string())
        .collect();
    let mounts = vec![
        mount(&["/"], 10),
        mount(&["/", "srv"], 20),
        mount(&["/", "srvx"], 30),
        mount(&["/", "home"], 40),
    ];
    assert_eq!(free_space(&path, &mounts), Some((20, 40)));
    assert_eq!(free_space(&path, &mounts[..1].to_vec()), Some((10, 20)));
    assert_eq!(free_space(&path, &mounts[3..].to_vec()), None);
}
