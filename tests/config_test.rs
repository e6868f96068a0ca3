use pfp::{
    load_defaults, resolve_inheritance, Config, ConfigError, IncludeEntry, IncludeEntryDetailed, Mode, Profile,
    ProfileTable, Session,
};

fn strings(items: &[&str]) -> Vec<String> {
    items.iter().map(|s| s.to_string()).collect()
}

fn detailed(paths: &[&str], profile: Option<&str>) -> IncludeEntryDetailed {
    IncludeEntryDetailed {
        paths: strings(paths),
        profile: profile.map(|p| p.to_string()),
        mode: None,
        markers: None,
        ignore: None,
        depth: None,
        stop_on_marker: None,
        intermediate_paths: None,
        show_hidden: None,
        traverse_hidden_dirs: None,
    }
}

#[test]
fn test_defaults_json_parses() {
    let defaults = load_defaults();
    assert!(defaults.contains_key("projects"));
    assert!(defaults.contains_key("browse"));
    assert!(defaults.contains_key("files"));
}

#[test]
fn test_profile_merge_overrides_some_fields() {
    let base = Profile {
        base: None,
        mode: Some(Mode::Dir),
        markers: Some(vec![".git".to_string()]),
        ignore: Some(vec!["node_modules".to_string()]),
        depth: Some(255),
        stop_on_marker: Some(true),
        intermediate_paths: Some(true),
        show_hidden: Some(false),
        traverse_hidden_dirs: Some(false),
    };

    let override_profile = Profile {
        base: None,
        mode: None,
        markers: Some(vec![".git".to_string(), "pom.xml".to_string()]),
        ignore: None,
        depth: Some(5),
        stop_on_marker: None,
        intermediate_paths: None,
        show_hidden: None,
        traverse_hidden_dirs: None,
    };

    let merged = base.merge(&override_profile);

    assert_eq!(merged.markers, Some(vec![".git".to_string(), "pom.xml".to_string()]));
    assert_eq!(merged.depth, Some(5));

    assert_eq!(merged.mode, Some(Mode::Dir));
    assert_eq!(merged.ignore, Some(vec!["node_modules".to_string()]));
    assert_eq!(merged.stop_on_marker, Some(true));
    assert_eq!(merged.intermediate_paths, Some(true));
}

#[test]
fn test_profile_resolve_with_defaults() {
    let profile = Profile {
        base: None,
        mode: Some(Mode::File),
        markers: Some(vec!["*.rs".to_string()]),
        ignore: None,
        depth: None,
        stop_on_marker: None,
        intermediate_paths: None,
        show_hidden: None,
        traverse_hidden_dirs: None,
    };

    let resolved = profile.resolve();

    assert_eq!(resolved.mode, Mode::File);
    assert_eq!(resolved.markers, vec!["*.rs".to_string()]);
    assert!(resolved.ignore.is_empty());
    assert_eq!(resolved.depth, 255);
    assert!(resolved.stop_on_marker);
    assert!(resolved.intermediate_paths);
    assert!(!resolved.show_hidden);
    assert!(!resolved.traverse_hidden_dirs);
}

#[test]
fn resolve_of_empty_profile_sets_every_field() {
    let resolved = Profile::default().resolve();
    assert_eq!(resolved.mode, Mode::Dir);
    assert!(resolved.markers.is_empty());
    assert!(resolved.ignore.is_empty());
    assert_eq!(resolved.depth, 255);
    assert!(resolved.stop_on_marker);
    assert!(resolved.intermediate_paths);
    assert!(!resolved.show_hidden);
    assert!(!resolved.traverse_hidden_dirs);
}

#[test]
fn merge_is_right_biased_on_every_field() {
    let a = Profile {
        base: Some("a".to_string()),
        mode: Some(Mode::Dir),
        markers: Some(strings(&["m"])),
        ignore: Some(strings(&["i"])),
        depth: Some(1),
        stop_on_marker: Some(true),
        intermediate_paths: Some(true),
        show_hidden: Some(true),
        traverse_hidden_dirs: Some(true),
    };
    let b = Profile {
        base: Some("b".to_string()),
        mode: Some(Mode::File),
        markers: Some(vec![]),
        ignore: Some(strings(&["j"])),
        depth: Some(2),
        stop_on_marker: Some(false),
        intermediate_paths: Some(false),
        show_hidden: Some(false),
        traverse_hidden_dirs: Some(false),
    };
    let ab = a.merge(&b);
    assert_eq!(ab.base, Some("b".to_string()));
    assert_eq!(ab.mode, Some(Mode::File));
    assert_eq!(ab.markers, Some(vec![]));
    assert_eq!(ab.ignore, Some(strings(&["j"])));
    assert_eq!(ab.depth, Some(2));
    assert_eq!(ab.stop_on_marker, Some(false));
    assert_eq!(ab.intermediate_paths, Some(false));
    assert_eq!(ab.show_hidden, Some(false));
    assert_eq!(ab.traverse_hidden_dirs, Some(false));
    let a_empty = a.merge(&Profile::default());
    assert_eq!(a_empty.base, None);
    assert_eq!(a_empty.markers, Some(strings(&["m"])));
    assert_eq!(a_empty.depth, Some(1));
    assert_eq!(a_empty.traverse_hidden_dirs, Some(true));
}

#[test]
fn test_include_entry_simple_string() {
    let entry = IncludeEntry::Simple("$HOME/dev".to_string());

    assert_eq!(entry.paths(), vec!["$HOME/dev"]);
    assert_eq!(entry.profile_name(), "projects");

    let overrides = entry.overrides();
    assert!(overrides.mode.is_none());
    assert!(overrides.markers.is_none());
}

#[test]
fn test_include_entry_detailed_object() {
    let mut d = detailed(&["/tmp", "/var"], Some("browse"));
    d.depth = Some(3);
    let entry = IncludeEntry::Detailed(d);

    assert_eq!(entry.paths(), vec!["/tmp", "/var"]);
    assert_eq!(entry.profile_name(), "browse");

    let overrides = entry.overrides();
    assert_eq!(overrides.depth, Some(3));
    assert!(overrides.mode.is_none());
}

#[test]
fn test_include_entry_detailed_with_inline_overrides() {
    let mut d = detailed(&["$HOME/scripts"], Some("files"));
    d.mode = Some(Mode::File);
    d.markers = Some(vec!["*.sh".to_string()]);
    d.depth = Some(2);
    let entry = IncludeEntry::Detailed(d);

    let overrides = entry.overrides();
    assert_eq!(overrides.mode, Some(Mode::File));
    assert_eq!(overrides.markers, Some(vec!["*.sh".to_string()]));
    assert_eq!(overrides.depth, Some(2));
}

#[test]
fn detailed_entry_without_profile_uses_projects() {
    let entry = IncludeEntry::Detailed(detailed(&["/a"], None));
    assert_eq!(entry.profile_name(), "projects");
    assert!(entry.overrides().base.is_none());
}

#[test]
fn test_config_default() {
    let config = Config::default();

    assert!(config.profiles.contains_key("projects"));
    assert!(config.profiles.contains_key("browse"));
    assert!(config.profiles.contains_key("files"));
    assert_eq!(config.includes.len(), 1);
}

#[test]
fn test_config_resolve_profile() {
    let config = Config::default();
    let mut d = detailed(&["/tmp"], Some("projects"));
    d.depth = Some(3);
    let entry = IncludeEntry::Detailed(d);

    let resolved = config.resolve_profile(&entry);

    assert_eq!(resolved.mode, Mode::Dir);
    assert!(resolved.markers.contains(&".git".to_string()));

    assert_eq!(resolved.depth, 3);
}

#[test]
fn unknown_profile_name_falls_back_to_defaults_and_overrides() {
    let config = Config::default();
    let mut d = detailed(&["/tmp"], Some("no_such_profile"));
    d.markers = Some(strings(&["x"]));
    let resolved = config.resolve_profile(&IncludeEntry::Detailed(d));
    assert_eq!(resolved.markers, strings(&["x"]));
    assert!(resolved.ignore.is_empty());
    assert_eq!(resolved.depth, 255);
    assert_eq!(resolved.mode, Mode::Dir);
}

#[test]
fn test_profile_merge_ignore_override() {
    let base = Profile {
        base: None,
        mode: Some(Mode::Dir),
        markers: Some(vec![".git".to_string()]),
        ignore: Some(vec!["node_modules".to_string(), "target".to_string()]),
        depth: Some(10),
        stop_on_marker: Some(true),
        intermediate_paths: Some(true),
        show_hidden: Some(false),
        traverse_hidden_dirs: Some(false),
    };

    let override_profile = Profile {
        ignore: Some(vec!["my_ignored_dir".to_string()]),
        ..Default::default()
    };

    let merged = base.merge(&override_profile);

    assert_eq!(merged.ignore, Some(vec!["my_ignored_dir".to_string()]));
    assert_eq!(merged.markers, Some(vec![".git".to_string()]));
}

#[test]
fn test_resolve_profile_with_user_ignore() {
    let defaults_profile = Profile {
        base: None,
        mode: Some(Mode::Dir),
        markers: Some(vec![".git".to_string()]),
        ignore: Some(vec!["node_modules".to_string()]),
        depth: Some(255),
        stop_on_marker: Some(true),
        intermediate_paths: Some(true),
        show_hidden: Some(false),
        traverse_hidden_dirs: Some(false),
    };

    let user_profile = Profile {
        ignore: Some(vec!["my_custom_dir".to_string(), "build".to_string()]),
        ..Default::default()
    };

    let merged = defaults_profile.merge(&user_profile);
    let resolved = merged.resolve();

    assert_eq!(resolved.ignore, vec!["my_custom_dir".to_string(), "build".to_string()]);
    assert!(!resolved.ignore.contains(&"node_modules".to_string()));
}

#[test]
fn test_inline_ignore_override() {
    let config = Config::default();
    let mut d = detailed(&["/tmp"], Some("projects"));
    d.ignore = Some(vec!["custom_ignored".to_string()]);
    let entry = IncludeEntry::Detailed(d);

    let resolved = config.resolve_profile(&entry);

    assert_eq!(resolved.ignore, vec!["custom_ignored".to_string()]);
    assert!(!resolved.ignore.contains(&"node_modules".to_string()));
}

#[test]
fn test_default_ignore_preserved_when_not_overridden() {
    let config = Config::default();
    let entry = IncludeEntry::Detailed(detailed(&["/tmp"], Some("projects")));

    let resolved = config.resolve_profile(&entry);

    assert!(resolved.ignore.contains(&"node_modules".to_string()));
    assert!(resolved.ignore.contains(&"target".to_string()));
    assert!(resolved.ignore.contains(&"venv".to_string()));
}

#[test]
fn test_profile_inheritance_basic() {
    let mut profiles = ProfileTable::new();
    profiles.insert(
        "base_profile".to_string(),
        Profile {
            mode: Some(Mode::Dir),
            markers: Some(vec![".git".to_string()]),
            ignore: Some(vec!["node_modules".to_string()]),
            depth: Some(10),
            stop_on_marker: Some(true),
            intermediate_paths: Some(true),
            show_hidden: Some(false),
            traverse_hidden_dirs: Some(false),
            base: None,
        },
    );
    profiles.insert(
        "child_profile".to_string(),
        Profile {
            base: Some("base_profile".to_string()),
            depth: Some(5),
            markers: Some(vec!["Cargo.toml".to_string()]),
            ..Default::default()
        },
    );

    let resolved = resolve_inheritance(profiles).unwrap();
    let child = resolved.get("child_profile").unwrap();

    assert_eq!(child.mode, Some(Mode::Dir));
    assert_eq!(child.ignore, Some(vec!["node_modules".to_string()]));
    assert_eq!(child.stop_on_marker, Some(true));

    assert_eq!(child.depth, Some(5));
    assert_eq!(child.markers, Some(vec!["Cargo.toml".to_string()]));
    assert!(child.base.is_none());
}

#[test]
fn test_profile_inheritance_chain() {
    let mut profiles = ProfileTable::new();
    profiles.insert(
        "grandparent".to_string(),
        Profile {
            mode: Some(Mode::Dir),
            depth: Some(100),
            markers: Some(vec![".git".to_string()]),
            ..Default::default()
        },
    );
    profiles.insert(
        "parent".to_string(),
        Profile {
            base: Some("grandparent".to_string()),
            depth: Some(50),
            ..Default::default()
        },
    );
    profiles.insert(
        "child".to_string(),
        Profile {
            base: Some("parent".to_string()),
            depth: Some(10),
            ..Default::default()
        },
    );

    let resolved = resolve_inheritance(profiles).unwrap();
    let child = resolved.get("child").unwrap();

    assert_eq!(child.mode, Some(Mode::Dir));
    assert_eq!(child.markers, Some(vec![".git".to_string()]));

    assert_eq!(child.depth, Some(10));
}

#[test]
fn test_profile_inheritance_missing_base() {
    let mut profiles = ProfileTable::new();
    profiles.insert(
        "orphan".to_string(),
        Profile {
            base: Some("nonexistent".to_string()),
            depth: Some(5),
            ..Default::default()
        },
    );

    // A base that no profile is called is a configuration error.
    match resolve_inheritance(profiles) {
        Err(ConfigError::MissingBase { profile, base }) => {
            assert_eq!(profile, "orphan");
            assert_eq!(base, "nonexistent");
        }
        other => panic!("unexpected {:?}", other),
    }
}

#[test]
fn test_profile_inheritance_from_builtin() {
    let mut profiles = load_defaults();
    profiles.insert(
        "my_projects".to_string(),
        Profile {
            base: Some("projects".to_string()),
            depth: Some(3),
            ..Default::default()
        },
    );

    let resolved = resolve_inheritance(profiles).unwrap();
    let my_projects = resolved.get("my_projects").unwrap();

    assert!(my_projects.markers.as_ref().unwrap().contains(&".git".to_string()));
    assert_eq!(my_projects.depth, Some(3));
}

#[test]
fn base_free_table_resolves_unchanged() {
    let mut profiles = ProfileTable::new();
    profiles.insert("a".to_string(), Profile { depth: Some(1), ..Default::default() });
    profiles.insert("b".to_string(), Profile { markers: Some(strings(&["m"])), ..Default::default() });
    let resolved = resolve_inheritance(profiles).unwrap();
    assert_eq!(resolved.get("a").unwrap().depth, Some(1));
    assert!(resolved.get("a").unwrap().markers.is_none());
    assert_eq!(resolved.get("b").unwrap().markers, Some(strings(&["m"])));
    assert!(resolved.get("b").unwrap().depth.is_none());
    let again = resolve_inheritance(resolved).unwrap();
    assert_eq!(again.get("a").unwrap().depth, Some(1));
}

fn cycle_table(names: &[&str]) -> ProfileTable {
    let mut profiles = ProfileTable::new();
    for i in 0..names.len() {
        profiles.insert(
            names[i].to_string(),
            Profile {
                base: Some(names[(i + 1) % names.len()].to_string()),
                depth: Some(i as u8),
                ..Default::default()
            },
        );
    }
    profiles
}

#[test]
fn two_profile_cycle_is_rejected() {
    match resolve_inheritance(cycle_table(&["a", "b"])) {
        Err(ConfigError::CircularInheritance { profile }) => assert!(profile == "a" || profile == "b"),
        other => panic!("unexpected {:?}", other),
    }
}

#[test]
fn three_profile_cycle_is_rejected() {
    assert!(matches!(
        resolve_inheritance(cycle_table(&["a", "b", "c"])),
        Err(ConfigError::CircularInheritance { .. })
    ));
}

#[test]
fn self_inheritance_is_rejected() {
    assert!(matches!(
        resolve_inheritance(cycle_table(&["solo"])),
        Err(ConfigError::CircularInheritance { .. })
    ));
}

#[test]
fn profile_inheriting_into_a_cycle_is_rejected() {
    let mut profiles = cycle_table(&["a", "b"]);
    profiles.insert("c".to_string(), Profile { base: Some("a".to_string()), ..Default::default() });
    assert!(resolve_inheritance(profiles).is_err());
}

#[test]
fn table_insert_replaces_and_get_misses() {
    let mut t = ProfileTable::new();
    t.insert("x".to_string(), Profile { depth: Some(1), ..Default::default() });
    t.insert("x".to_string(), Profile { depth: Some(2), ..Default::default() });
    assert_eq!(t.get("x").unwrap().depth, Some(2));
    assert!(t.get("y").is_none());
    assert!(!t.contains_key("y"));
}

fn user_table(entries: Vec<(&str, Profile)>) -> ProfileTable {
    let mut t = ProfileTable::new();
    for (name, p) in entries {
        t.insert(name.to_string(), p);
    }
    t
}

#[test]
fn test_profile_inheritance_partial_override() {
    let user = user_table(vec![
        (
            "base",
            Profile {
                mode: Some(Mode::Dir),
                markers: Some(strings(&[".git"])),
                depth: Some(20),
                ignore: Some(strings(&["node_modules", "target"])),
                show_hidden: Some(false),
                ..Default::default()
            },
        ),
        (
            "derived",
            Profile { base: Some("base".to_string()), ignore: Some(strings(&["custom_ignore"])), ..Default::default() },
        ),
    ]);
    let config = Config::assemble(load_defaults(), user, vec![IncludeEntry::Simple("/tmp".to_string())], vec![])
        .unwrap();
    let derived = config.profiles.get("derived").unwrap();

    assert_eq!(derived.mode, Some(Mode::Dir));
    assert_eq!(derived.markers, Some(vec![".git".to_string()]));
    assert_eq!(derived.depth, Some(20));
    assert_eq!(derived.show_hidden, Some(false));

    assert_eq!(derived.ignore, Some(vec!["custom_ignore".to_string()]));
}

#[test]
fn test_profile_inheritance_multiple_children() {
    let user = user_table(vec![
        (
            "base",
            Profile { mode: Some(Mode::Dir), markers: Some(strings(&[".git"])), depth: Some(20), ..Default::default() },
        ),
        ("child1", Profile { base: Some("base".to_string()), depth: Some(5), ..Default::default() }),
        (
            "child2",
            Profile {
                base: Some("base".to_string()),
                depth: Some(10),
                traverse_hidden_dirs: Some(true),
                ..Default::default()
            },
        ),
    ]);
    let config = Config::assemble(load_defaults(), user, vec![IncludeEntry::Simple("/tmp".to_string())], vec![])
        .unwrap();
    let child1 = config.profiles.get("child1").unwrap();
    let child2 = config.profiles.get("child2").unwrap();

    assert_eq!(child1.markers, Some(vec![".git".to_string()]));
    assert_eq!(child2.markers, Some(vec![".git".to_string()]));

    assert_eq!(child1.depth, Some(5));
    assert_eq!(child2.depth, Some(10));
    assert_eq!(child2.traverse_hidden_dirs, Some(true));
    assert!(child1.traverse_hidden_dirs.is_none());
}

#[test]
fn test_profile_inheritance_with_inline_override() {
    let user = user_table(vec![
        ("base_profile", Profile { markers: Some(strings(&[".git"])), depth: Some(20), ..Default::default() }),
        ("derived", Profile { base: Some("base_profile".to_string()), depth: Some(10), ..Default::default() }),
    ]);
    let mut d = detailed(&["/tmp"], Some("derived"));
    d.depth = Some(5);
    let config = Config::assemble(load_defaults(), user, vec![IncludeEntry::Detailed(d)], vec![]).unwrap();

    let derived = config.profiles.get("derived").unwrap();
    assert_eq!(derived.depth, Some(10));
    assert_eq!(derived.markers, Some(vec![".git".to_string()]));

    let resolved = config.resolve_profile(&config.includes[0]);
    assert_eq!(resolved.depth, 5);
    assert_eq!(resolved.markers, vec![".git".to_string()]);
}

#[test]
fn test_profile_inheritance_circular_dependency() {
    let user = user_table(vec![
        ("a", Profile { base: Some("b".to_string()), depth: Some(5), ..Default::default() }),
        ("b", Profile { base: Some("a".to_string()), depth: Some(10), ..Default::default() }),
    ]);
    let result = Config::assemble(load_defaults(), user, vec![], vec![]);
    assert!(result.is_err());
    assert!(matches!(result, Err(ConfigError::CircularInheritance { .. })));
}

#[test]
fn test_profile_inheritance_missing_base_error() {
    let user = user_table(vec![(
        "orphan",
        Profile { base: Some("nonexistent_profile".to_string()), depth: Some(5), ..Default::default() },
    )]);
    let result = Config::assemble(load_defaults(), user, vec![], vec![]);
    assert!(result.is_err());
}

#[test]
fn assemble_merges_user_profile_onto_builtin_and_defaults_home() {
    let user = user_table(vec![("projects", Profile { markers: Some(strings(&[".git", "pom.xml"])), ..Default::default() })]);
    let sessions = vec![Session { name: "work".to_string(), windows: strings(&["/a", "/b"]) }];
    let config = Config::assemble(load_defaults(), user, vec![], sessions).unwrap();
    let projects = config.profiles.get("projects").unwrap();
    assert_eq!(projects.markers, Some(strings(&[".git", "pom.xml"])));
    assert!(projects.ignore.as_ref().unwrap().contains(&"node_modules".to_string()));
    assert_eq!(projects.mode, Some(Mode::Dir));
    assert_eq!(config.includes.len(), 1);
    assert_eq!(config.includes[0].paths(), vec!["$HOME"]);
    assert_eq!(config.sessions.len(), 1);
    assert_eq!(config.sessions[0].name, "work");
}

#[test]
fn test_profile_inheritance_basic_config() {
    let user = user_table(vec![
        (
            "base_profile",
            Profile {
                mode: Some(Mode::Dir),
                markers: Some(strings(&[".git"])),
                ignore: Some(strings(&["node_modules", "target"])),
                depth: Some(10),
                stop_on_marker: Some(true),
                ..Default::default()
            },
        ),
        (
            "child_profile",
            Profile {
                base: Some("base_profile".to_string()),
                depth: Some(5),
                markers: Some(strings(&["Cargo.toml"])),
                ..Default::default()
            },
        ),
    ]);
    let result = Config::assemble(load_defaults(), user, vec![IncludeEntry::Simple("/tmp".to_string())], vec![]);
    assert!(result.is_ok(), "Config should parse successfully");

    let config = result.unwrap();
    let child = config.profiles.get("child_profile").unwrap();

    assert_eq!(child.ignore, Some(vec!["node_modules".to_string(), "target".to_string()]));
    assert_eq!(child.stop_on_marker, Some(true));

    assert_eq!(child.depth, Some(5));
    assert_eq!(child.markers, Some(vec!["Cargo.toml".to_string()]));
}

#[test]
fn test_profile_inheritance_chain_config() {
    let user = user_table(vec![
        (
            "grandparent",
            Profile {
                mode: Some(Mode::Dir),
                depth: Some(100),
                markers: Some(strings(&[".git"])),
                ignore: Some(strings(&["node_modules"])),
                ..Default::default()
            },
        ),
        ("parent", Profile { base: Some("grandparent".to_string()), depth: Some(50), ..Default::default() }),
        (
            "child",
            Profile {
                base: Some("parent".to_string()),
                depth: Some(10),
                traverse_hidden_dirs: Some(true),
                ..Default::default()
            },
        ),
    ]);
    let result = Config::assemble(load_defaults(), user, vec![IncludeEntry::Simple("/tmp".to_string())], vec![]);
    assert!(result.is_ok());

    let config = result.unwrap();
    let child = config.profiles.get("child").unwrap();

    assert_eq!(child.mode, Some(Mode::Dir));
    assert_eq!(child.markers, Some(vec![".git".to_string()]));
    assert_eq!(child.ignore, Some(vec!["node_modules".to_string()]));

    assert_eq!(child.depth, Some(10));
    assert_eq!(child.traverse_hidden_dirs, Some(true));
}

#[test]
fn test_profile_inheritance_from_defaults() {
    let user = user_table(vec![(
        "my_projects",
        Profile { base: Some("projects".to_string()), depth: Some(3), ..Default::default() },
    )]);
    let result = Config::assemble(load_defaults(), user, vec![IncludeEntry::Simple("/tmp".to_string())], vec![]);
    assert!(result.is_ok());

    let config = result.unwrap();
    let my_projects = config.profiles.get("my_projects").unwrap();

    assert!(my_projects.markers.as_ref().unwrap().contains(&".git".to_string()));
    assert_eq!(my_projects.depth, Some(3));
}

#[test]
fn merge_never_carries_the_base_profiles_own_base() {
    let under = Profile { base: Some("x".to_string()), depth: Some(4), ..Default::default() };
    let over = Profile { markers: Some(strings(&["m"])), ..Default::default() };
    let merged = under.merge(&over);
    assert!(merged.base.is_none());
    assert_eq!(merged.depth, Some(4));
    let over_with_base = Profile { base: Some("y".to_string()), ..Default::default() };
    assert_eq!(under.merge(&over_with_base).base, Some("y".to_string()));
}

#[test]
fn builtin_profiles_hold_their_stated_values() {
    let t = load_defaults();
    let projects = t.get("projects").unwrap();
    assert_eq!(projects.mode, Some(Mode::Dir));
    assert_eq!(
        projects.markers,
        Some(strings(&[".git", "Cargo.toml", "go.mod", "package.json", "pom.xml", "pyproject.toml", "Makefile"]))
    );
    assert_eq!(
        projects.ignore,
        Some(strings(&["node_modules", "target", "venv", ".venv", "build", "dist", "vendor"]))
    );
    assert_eq!(projects.depth, Some(5));
    let browse = t.get("browse").unwrap();
    assert_eq!(browse.markers, Some(strings(&["*"])));
    assert_eq!(browse.depth, Some(1));
    assert_eq!(browse.intermediate_paths, Some(true));
    let files = t.get("files").unwrap();
    assert_eq!(files.mode, Some(Mode::File));
    assert_eq!(files.ignore, Some(strings(&[".git", "node_modules", "target"])));
    assert_eq!(files.depth, Some(3));
    assert!(!t.contains_key("other"));
}
