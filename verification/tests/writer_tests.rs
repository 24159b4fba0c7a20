use rpbox_core::{
    apply_updates, backup_path_for, check_addon_installed, default_profile_id,
    get_addon_path, get_sync_status, normalize_wow_path, parse_variable_from_str,
    patch_variable, plan_patch, read_toc_version, skeleton_content, to_lua_table,
    validate_wow_path, PathProbes, SyncStatus, Value, WriteError,
};

fn obj(entries: Vec<(&str, Value)>) -> Value {
    Value::Obj(entries.into_iter().map(|(k, v)| (k.to_string(), v)).collect())
}

#[test]
fn serialize_scalars() {
    assert_eq!(to_lua_table(&Value::Null, 0), "nil");
    assert_eq!(to_lua_table(&Value::Bool(true), 0), "true");
    assert_eq!(to_lua_table(&Value::Bool(false), 0), "false");
    assert_eq!(to_lua_table(&Value::Num("2.5".to_string()), 0), "2.5");
    assert_eq!(to_lua_table(&Value::Str("a\"b\\c\nd".to_string()), 0), "\"a\\\"b\\\\c\\nd\"");
}

#[test]
fn serialize_empty_aggregates() {
    assert_eq!(to_lua_table(&Value::Arr(vec![]), 0), "{}");
    assert_eq!(to_lua_table(&Value::Obj(vec![]), 0), "{}");
}

#[test]
fn serialize_nested_layout() {
    let v = obj(vec![
        ("name", Value::Str("x".to_string())),
        ("1bad key", Value::Arr(vec![Value::Num("9".to_string())])),
    ]);
    assert_eq!(
        to_lua_table(&v, 0),
        "{\n  name = \"x\",\n  [\"1bad key\"] = {\n    9,\n  },\n}"
    );
}

#[test]
fn round_trip_through_the_grammar() {
    let v = obj(vec![
        ("a", Value::Num("1.5".to_string())),
        ("b", Value::Str("line1\nline2\t\"quoted\"".to_string())),
        ("c", Value::Arr(vec![Value::Bool(true), Value::Null, Value::Str("s".to_string())])),
        ("d", obj(vec![("inner", Value::Str("v".to_string()))])),
    ]);
    let text = format!("Foo = {}\n", to_lua_table(&v, 0));
    let parsed = parse_variable_from_str(&text, "Foo").unwrap();
    // comparing the serialized forms compares the trees
    assert_eq!(to_lua_table(&parsed, 0), to_lua_table(&v, 0));
}

#[test]
fn patch_replaces_only_the_target_span() {
    // scenario: the other assignment's bytes survive untouched
    let original = "Foo = {1,2,3}\nBar = 1\n";
    let patched = patch_variable(original, "Foo", &Value::Arr(vec![Value::Num("9".to_string())]));
    assert_eq!(patched, "Foo = {\n  9,\n}\nBar = 1\n");
    assert!(patched.ends_with("Bar = 1\n"));
}

#[test]
fn patch_is_idempotent_on_the_target() {
    let original = "-- header\nKeep = { 7 }\nFoo = { old = 1 }\ntail = 2\n";
    let v = obj(vec![("k", Value::Str("v".to_string()))]);
    let patched = patch_variable(original, "Foo", &v);
    let parsed = parse_variable_from_str(&patched, "Foo").unwrap();
    assert_eq!(to_lua_table(&parsed, 0), to_lua_table(&v, 0));
    // untouched surroundings
    assert!(patched.starts_with("-- header\nKeep = { 7 }\n"));
    assert!(patched.ends_with("tail = 2\n"));
}

#[test]
fn patch_appends_when_the_variable_is_missing() {
    let original = "Bar = { 1 }";
    let patched = patch_variable(original, "Foo", &Value::Arr(vec![]));
    assert_eq!(patched, "Bar = { 1 }\nFoo = {}\n");
}

#[test]
fn patch_respects_identifier_boundaries() {
    // `MyFoo` must not be mistaken for `Foo`
    let original = "MyFoo = { 1 }\nFoo = { 2 }\n";
    let patched = patch_variable(original, "Foo", &Value::Arr(vec![Value::Num("5".to_string())]));
    assert_eq!(patched, "MyFoo = { 1 }\nFoo = {\n  5,\n}\n");
}

#[test]
fn write_guard_refuses_while_the_game_runs() {
    let original = "Foo = { 1 }\n";
    let r = plan_patch(true, original, "Foo", &Value::Arr(vec![]));
    assert!(matches!(r, Err(WriteError::WowRunning)));
    // and produces content only when the game is not running
    let r = plan_patch(false, original, "Foo", &Value::Arr(vec![]));
    assert_eq!(r.ok().unwrap(), "Foo = {}\n");
}

#[test]
fn backup_path_replaces_the_final_extension() {
    assert_eq!(
        backup_path_for("wtf/Account/SavedVariables/totalRP3.lua", "lua.rpbox_backup"),
        "wtf/Account/SavedVariables/totalRP3.lua.rpbox_backup"
    );
    assert_eq!(backup_path_for("noext", "lua.rpbox_backup"), "noext.lua.rpbox_backup");
    assert_eq!(backup_path_for("dir.d/.hidden", "bak"), "dir.d/.hidden.bak");
}

#[test]
fn skeleton_holds_target_and_siblings() {
    let profiles = obj(vec![("p1", obj(vec![("profileName", Value::Str("Default profile".to_string()))]))]);
    let siblings = vec![
        ("TRP3_Characters".to_string(), Value::Obj(vec![])),
        (
            "TRP3_Configuration".to_string(),
            obj(vec![("default_profile_id", Value::Str("p1".to_string()))]),
        ),
        ("TRP3_Flyway".to_string(), Value::Obj(vec![])),
    ];
    let content = skeleton_content("TRP3_Profiles", &profiles, &siblings);
    assert!(content.starts_with("TRP3_Profiles = {\n"));
    assert!(content.contains("TRP3_Characters = {}\n"));
    assert!(content.contains("TRP3_Configuration = {\n  default_profile_id = \"p1\",\n}\n"));
    assert!(content.ends_with("TRP3_Flyway = {}\n"));
}

#[test]
fn default_profile_id_prefers_the_default_named_profile() {
    let profiles = obj(vec![
        ("alpha", obj(vec![("profileName", Value::Str("Someone".to_string()))])),
        ("beta", obj(vec![("profileName", Value::Str("Default profile".to_string()))])),
    ]);
    assert_eq!(default_profile_id(&profiles).unwrap(), "beta");
    let profiles = obj(vec![("alpha", obj(vec![]))]);
    assert_eq!(default_profile_id(&profiles).unwrap(), "alpha");
    assert!(default_profile_id(&Value::Obj(vec![])).is_none());
}

#[test]
fn addon_path_and_toc_version() {
    assert_eq!(
        get_addon_path("D:/World of Warcraft/_retail_/WTF", "retail"),
        "D:/World of Warcraft/_retail_/Interface/AddOns/RPBox_Addon"
    );
    assert_eq!(
        get_addon_path("D:/World of Warcraft/_retail_", "retail"),
        "D:/World of Warcraft/_retail_/Interface/AddOns/RPBox_Addon"
    );
    assert_eq!(read_toc_version("## Interface: 110000\n## Version: 1.2.3\n"), Some("1.2.3".to_string()));
    assert_eq!(read_toc_version("nothing here\n"), None);
    let info = check_addon_installed("root/_retail_", "retail", Some("## Version: 0.9\n"));
    assert!(info.installed);
    assert_eq!(info.version, Some("0.9".to_string()));
    assert_eq!(info.path, Some("root/_retail_/Interface/AddOns/RPBox_Addon".to_string()));
    let info = check_addon_installed("root/_retail_", "retail", None);
    assert!(!info.installed && info.version.is_none() && info.path.is_none());
}

#[test]
fn normalize_resolves_each_path_shape() {
    let all = PathProbes {
        path_exists: true,
        account_exists: true,
        wtf_account_exists: true,
        retail_account_exists: true,
        classic_account_exists: true,
    };
    assert_eq!(normalize_wow_path("root/WTF/Account", &all), Some("root/WTF".to_string()));
    assert_eq!(normalize_wow_path("root/WTF", &all), Some("root/WTF".to_string()));
    assert_eq!(normalize_wow_path("root/_retail_", &all), Some("root/_retail_/WTF".to_string()));
    assert_eq!(normalize_wow_path("root", &all), Some("root/_retail_/WTF".to_string()));
    let classic_only = PathProbes {
        path_exists: true,
        account_exists: false,
        wtf_account_exists: false,
        retail_account_exists: false,
        classic_account_exists: true,
    };
    assert_eq!(
        normalize_wow_path("root", &classic_only),
        Some("root/_classic_/WTF".to_string())
    );
    let nothing = PathProbes {
        path_exists: false,
        account_exists: false,
        wtf_account_exists: false,
        retail_account_exists: false,
        classic_account_exists: false,
    };
    assert!(!validate_wow_path("root", &nothing));
    assert!(validate_wow_path("root", &classic_only));
}

#[test]
fn sync_status_decision_table() {
    assert_eq!(get_sync_status(None, "abc", Some(3)), SyncStatus::NotSynced);
    assert_eq!(
        get_sync_status(Some(("abc".to_string(), 3)), "abc", Some(3)),
        SyncStatus::Synced
    );
    assert_eq!(
        get_sync_status(Some(("abc".to_string(), 3)), "changed", Some(3)),
        SyncStatus::LocalChanged
    );
    assert_eq!(
        get_sync_status(Some(("abc".to_string(), 3)), "abc", Some(4)),
        SyncStatus::CloudChanged
    );
    assert_eq!(
        get_sync_status(Some(("abc".to_string(), 3)), "changed", Some(4)),
        SyncStatus::Conflict
    );
    assert_eq!(get_sync_status(Some(("abc".to_string(), 3)), "abc", None), SyncStatus::Synced);
}

#[test]
fn apply_updates_rewrites_profile_fields() {
    let profile = obj(vec![("profileName", Value::Str("Old".to_string()))]);
    let updates = obj(vec![
        (
            "characteristics",
            obj(vec![
                ("firstName", Value::Str("Anna".to_string())),
                ("lastName", Value::Str("".to_string())),
            ]),
        ),
        (
            "about",
            obj(vec![
                ("text", Value::Str("story".to_string())),
                ("title", Value::Str("New name".to_string())),
            ]),
        ),
    ]);
    let updated = apply_updates(profile, &updates).unwrap();
    let player = updated.get("player").unwrap();
    let chars = player.get("characteristics").unwrap();
    assert_eq!(chars.get("FN").unwrap().as_str().unwrap(), "Anna");
    assert!(chars.get("LN").is_none());
    let about = player.get("about").unwrap();
    assert!(matches!(about.get("TE").unwrap(), Value::Num(t) if t == "1"));
    assert_eq!(
        about.get("T1").unwrap().get("TX").unwrap().as_str().unwrap(),
        "story"
    );
    assert_eq!(updated.get("profileName").unwrap().as_str().unwrap(), "New name");
    // a malformed profile is rejected
    assert!(apply_updates(Value::Null, &Value::Obj(vec![])).is_err());
}
