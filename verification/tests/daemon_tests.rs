use oxibus::daemon::activation::{parse_ini_service, ActivationRegistry, ServiceDef};
use oxibus::daemon::apparmor::{build_query, finish_permission_check, AA_CLASS_DBUS, AA_DBUS_SEND};
use oxibus::daemon::launch_helper::{check_permissions, find_service, parse_args, HelperError};
use oxibus::daemon::match_rules::{is_path_parent_or_child, parse_match_rule};
use oxibus::daemon::policy::{
    glob_match, parse_xml_policy, Context, Identity, Policy, PolicyRule, SendReceivePattern,
};
use oxibus::daemon::registry::{
    Registry, FLAG_ALLOW_REPLACEMENT, FLAG_DO_NOT_QUEUE, FLAG_REPLACE_EXISTING,
    RELEASE_REPLY_NON_EXISTENT, RELEASE_REPLY_NOT_OWNER, RELEASE_REPLY_RELEASED,
    REQUEST_REPLY_ALREADY_OWNER, REQUEST_REPLY_EXISTS, REQUEST_REPLY_IN_QUEUE,
    REQUEST_REPLY_PRIMARY_OWNER,
};
use oxibus::daemon::stats::Stats;
use oxibus::header::MessageType;

#[test]
fn parses_name_owner_changed_rule() {
    let rule = parse_match_rule(
        "type='signal',sender='org.freedesktop.DBus',interface='org.freedesktop.DBus',member='NameOwnerChanged'",
    )
    .unwrap();
    assert_eq!(rule.message_type, Some(MessageType::Signal));
    assert_eq!(rule.sender.as_deref(), Some("org.freedesktop.DBus"));
    assert_eq!(rule.member.as_deref(), Some("NameOwnerChanged"));
}

#[test]
fn parses_escaped_quote() {
    let rule = parse_match_rule("member='don'\\''t'").unwrap();
    assert_eq!(rule.member.as_deref(), Some("don't"));
}

#[test]
fn rejects_missing_quotes() {
    assert!(parse_match_rule("member=foo").is_err());
}

#[test]
fn rejects_unknown_key() {
    assert!(parse_match_rule("bogus='x'").is_err());
}

#[test]
fn parses_arg0namespace_and_arg_paths() {
    let rule = parse_match_rule("arg0namespace='com.example',arg3path='/a/b'").unwrap();
    assert_eq!(rule.arg0namespace.as_deref(), Some("com.example"));
    assert_eq!(rule.arg_paths, vec![(3, "/a/b".to_string())]);
}

#[test]
fn matches_arg_path_hierarchy() {
    assert!(is_path_parent_or_child("/a/b/c", "/a/b"));
    assert!(is_path_parent_or_child("/a/b", "/a/b/c"));
    assert!(is_path_parent_or_child("/a/b", "/"));
    assert!(!is_path_parent_or_child("/a/b", "/a/bc"));
}

#[test]
fn arg_index_above_63_is_rejected() {
    assert_eq!(parse_match_rule("arg64='x'").unwrap_err(), "arg index must be 0..63");
    assert!(parse_match_rule("arg63='x'").is_ok());
}

#[test]
fn bad_match_type_is_named() {
    assert_eq!(parse_match_rule("type='bogus'").unwrap_err(), "invalid match rule type 'bogus'");
}

#[test]
fn test_parse_xml_policy() {
    let xml = r#"
    <!DOCTYPE busconfig PUBLIC "-//freedesktop//DTD D-Bus Bus Configuration 1.0//EN"
     "http://www.freedesktop.org/standards/dbus/1.0/busconfig.dtd">
    <busconfig>
      <!-- Comment test -->
      <policy context="default">
        <allow own="org.freedesktop.DBus"/>
        <deny send_destination="*"/>
        <allow recv_sender="*"/>
      </policy>
      <policy user="root">
        <allow own_prefix="org.freedesktop.Notifications"/>
        <allow send_destination="org.freedesktop.Notifications" send_interface="org.freedesktop.Notifications.Introspectable"/>
      </policy>
    </busconfig>
    "#;
    let rules = parse_xml_policy(xml);
    assert_eq!(rules.len(), 5);

    assert_eq!(rules[0].context, Context::Default);
    assert_eq!(rules[0].allow_own, vec!["org.freedesktop.DBus".to_string()]);

    assert_eq!(rules[1].context, Context::Default);
    assert_eq!(rules[1].deny_send.len(), 1);
    if let SendReceivePattern::Full { destination, .. } = &rules[1].deny_send[0] {
        assert_eq!(destination.as_deref(), Some("*"));
    } else {
        panic!("Expected Full pattern");
    }

    assert_eq!(rules[3].context, Context::User);
    assert_eq!(rules[3].user.as_deref(), Some("root"));
    assert_eq!(rules[3].allow_own, vec!["org.freedesktop.Notifications*".to_string()]);
}

fn own_rule(context: Context, user: Option<&str>, allow: &[&str], deny: &[&str]) -> PolicyRule {
    PolicyRule {
        context,
        user: user.map(|u| u.to_string()),
        group: None,
        allow_own: allow.iter().map(|s| s.to_string()).collect(),
        deny_own: deny.iter().map(|s| s.to_string()).collect(),
        allow_send: Vec::new(),
        deny_send: Vec::new(),
        allow_receive: Vec::new(),
        deny_receive: Vec::new(),
    }
}

#[test]
fn empty_policy_allows_everything() {
    let policy = Policy::default();
    let id = Identity { uid: 1000, user_name: Some("alice"), group_names: &[] };
    assert!(policy.can_own(&id, "com.example.Anything"));
}

#[test]
fn user_rule_overrides_default_deny() {
    let policy = Policy::from_rules(vec![
        own_rule(Context::Default, None, &[], &["*"]),
        own_rule(Context::User, Some("messagebus"), &["org.freedesktop.DBus"], &[]),
    ]);
    let bus_user = Identity { uid: 81, user_name: Some("messagebus"), group_names: &[] };
    assert!(policy.can_own(&bus_user, "org.freedesktop.DBus"));
    assert!(!policy.can_own(&bus_user, "com.example.Other"));
    let other_user = Identity { uid: 1000, user_name: Some("alice"), group_names: &[] };
    assert!(!policy.can_own(&other_user, "org.freedesktop.DBus"));
}

#[test]
fn mandatory_rule_wins_over_user_rule() {
    let policy = Policy::from_rules(vec![
        own_rule(Context::Mandatory, None, &[], &["com.example.*"]),
        own_rule(Context::User, Some("alice"), &["com.example.Foo"], &[]),
    ]);
    let alice = Identity { uid: 1000, user_name: Some("alice"), group_names: &[] };
    assert!(!policy.can_own(&alice, "com.example.Foo"));
}

#[test]
fn user_rule_matches_by_uid_text() {
    let policy = Policy::from_rules(vec![own_rule(Context::User, Some("1000"), &["a.b"], &[])]);
    let anon = Identity { uid: 1000, user_name: None, group_names: &[] };
    assert!(policy.can_own(&anon, "a.b"));
}

#[test]
fn group_rule_needs_membership() {
    let mut rule = own_rule(Context::Group, None, &["a.b"], &[]);
    rule.group = Some("wheel".to_string());
    let policy = Policy::from_rules(vec![rule]);
    let groups = vec!["wheel".to_string()];
    let member = Identity { uid: 5, user_name: Some("bob"), group_names: &groups };
    let outsider = Identity { uid: 6, user_name: Some("eve"), group_names: &[] };
    assert!(policy.can_own(&member, "a.b"));
    assert!(!policy.can_own(&outsider, "a.b"));
}

#[test]
fn glob_patterns() {
    assert!(glob_match("*", "anything"));
    assert!(glob_match("org.example.*", "org.example.Foo"));
    assert!(!glob_match("org.example.*", "org.other"));
    assert!(glob_match("exact", "exact"));
    assert!(!glob_match("exact", "exactly"));
}

#[test]
fn first_requester_becomes_primary_owner() {
    let mut reg = Registry::new();
    let (code, events) = reg.request_name(":1.1", "com.example.Foo", 0);
    assert_eq!(code, REQUEST_REPLY_PRIMARY_OWNER);
    assert_eq!(events.len(), 1);
    assert_eq!(reg.get_name_owner("com.example.Foo").as_deref(), Some(":1.1"));
}

#[test]
fn second_requester_without_queueing_flag_gets_exists() {
    let mut reg = Registry::new();
    reg.request_name(":1.1", "com.example.Foo", 0);
    let (code, events) = reg.request_name(":1.2", "com.example.Foo", FLAG_DO_NOT_QUEUE);
    assert_eq!(code, REQUEST_REPLY_EXISTS);
    assert!(events.is_empty());
}

#[test]
fn second_requester_queues_by_default() {
    let mut reg = Registry::new();
    reg.request_name(":1.1", "com.example.Foo", 0);
    let (code, _) = reg.request_name(":1.2", "com.example.Foo", 0);
    assert_eq!(code, REQUEST_REPLY_IN_QUEUE);
    assert_eq!(reg.list_queued_owners("com.example.Foo"), vec![":1.1".to_string(), ":1.2".to_string()]);
}

#[test]
fn replace_existing_requires_allow_replacement() {
    let mut reg = Registry::new();
    reg.request_name(":1.1", "com.example.Foo", 0);
    let (code, events) = reg.request_name(":1.2", "com.example.Foo", FLAG_REPLACE_EXISTING);
    assert_eq!(code, REQUEST_REPLY_IN_QUEUE);
    assert!(events.is_empty());
}

#[test]
fn replace_existing_succeeds_when_allowed() {
    let mut reg = Registry::new();
    reg.request_name(":1.1", "com.example.Foo", FLAG_ALLOW_REPLACEMENT);
    let (code, events) = reg.request_name(":1.2", "com.example.Foo", FLAG_REPLACE_EXISTING);
    assert_eq!(code, REQUEST_REPLY_PRIMARY_OWNER);
    assert_eq!(events.len(), 1);
    assert_eq!(events[0].old_owner.as_deref(), Some(":1.1"));
    assert_eq!(events[0].new_owner.as_deref(), Some(":1.2"));
    assert_eq!(reg.list_queued_owners("com.example.Foo"), vec![":1.2".to_string(), ":1.1".to_string()]);
}

#[test]
fn release_promotes_next_in_queue() {
    let mut reg = Registry::new();
    reg.request_name(":1.1", "com.example.Foo", 0);
    reg.request_name(":1.2", "com.example.Foo", 0);
    let (code, events) = reg.release_name(":1.1", "com.example.Foo");
    assert_eq!(code, RELEASE_REPLY_RELEASED);
    assert_eq!(events[0].new_owner.as_deref(), Some(":1.2"));
    assert_eq!(reg.get_name_owner("com.example.Foo").as_deref(), Some(":1.2"));
}

#[test]
fn remove_connection_releases_all_its_names() {
    let mut reg = Registry::new();
    reg.request_name(":1.1", "com.example.Foo", 0);
    reg.request_name(":1.1", "com.example.Bar", 0);
    let events = reg.remove_connection(":1.1");
    assert!(events.iter().any(|e| e.name == "com.example.Foo"));
    assert!(events.iter().any(|e| e.name == "com.example.Bar"));
    assert!(!reg.name_has_owner("com.example.Foo"));
}

#[test]
fn names_held_by_counts_owned_and_queued() {
    let mut reg = Registry::new();
    reg.request_name(":1.1", "com.example.Foo", 0);
    reg.request_name(":1.1", "com.example.Bar", 0);
    reg.request_name(":1.2", "com.example.Bar", 0);
    assert_eq!(reg.names_held_by(":1.1"), 2);
    assert_eq!(reg.names_held_by(":1.2"), 1);
    assert_eq!(reg.names_held_by(":1.3"), 0);
}

#[test]
fn requesting_again_says_already_owner() {
    let mut reg = Registry::new();
    reg.request_name(":1.1", "a.b", 0);
    let (code, events) = reg.request_name(":1.1", "a.b", 0);
    assert_eq!(code, REQUEST_REPLY_ALREADY_OWNER);
    assert!(events.is_empty());
}

#[test]
fn release_replies() {
    let mut reg = Registry::new();
    assert_eq!(reg.release_name(":1.1", "a.b").0, RELEASE_REPLY_NON_EXISTENT);
    reg.request_name(":1.1", "a.b", 0);
    assert_eq!(reg.release_name(":1.2", "a.b").0, RELEASE_REPLY_NOT_OWNER);
    let (code, events) = reg.release_name(":1.1", "a.b");
    assert_eq!(code, RELEASE_REPLY_RELEASED);
    assert_eq!(events[0].new_owner, None);
    assert!(!reg.name_has_owner("a.b"));
}

#[test]
fn unique_names_count_up_and_own_themselves() {
    let mut reg = Registry::new();
    let a = reg.allocate_unique_name();
    let b = reg.allocate_unique_name();
    assert_eq!(a, ":1.1");
    assert_eq!(b, ":1.2");
    reg.add_connection(&a, 1000);
    assert_eq!(reg.get_name_owner(&a).as_deref(), Some(":1.1"));
    assert_eq!(reg.get_name_owner(&b), None);
    assert_eq!(reg.connection_count(), 1);
    assert_eq!(reg.connection_count_for_uid(1000), 1);
    assert_eq!(reg.connection_count_for_uid(0), 0);
    let mut names = reg.list_names();
    names.sort();
    assert_eq!(names, vec![":1.1".to_string()]);
}

#[test]
fn incomplete_connections_are_bounded() {
    let mut reg = Registry::new();
    assert!(reg.try_begin_incomplete(1));
    assert!(!reg.try_begin_incomplete(1));
    reg.end_incomplete();
    assert!(reg.try_begin_incomplete(1));
}

#[test]
fn test_parse_ini_service() {
    let content = r#"
    # comment line
    [D-BUS Service]
    Name = org.freedesktop.Notifications
    Exec = /overlayer/syshub/bin/notification-daemon --some-flag
    User = notifications
    "#;
    let def = parse_ini_service(content).unwrap();
    assert_eq!(def.name, "org.freedesktop.Notifications");
    assert_eq!(def.program, "/overlayer/syshub/bin/notification-daemon");
    assert_eq!(def.args, vec!["--some-flag".to_string()]);
    assert_eq!(def.user.as_deref(), Some("notifications"));
}

#[test]
fn ini_service_keeps_quoted_argument_together() {
    let content = "[D-BUS Service]\nName=org.example.Bar\nExec=/bin/false --arg1 \"arg 2\"\nUser=nobody\n";
    let def = parse_ini_service(content).unwrap();
    assert_eq!(def.program, "/bin/false");
    assert_eq!(def.args, vec!["--arg1".to_string(), "arg 2".to_string()]);
}

#[test]
fn ini_service_outside_section_is_ignored() {
    assert!(parse_ini_service("Name=a.b\nExec=/bin/true\n").is_none());
}

fn service(name: &str, user: Option<&str>) -> ServiceDef {
    ServiceDef {
        name: name.to_string(),
        program: "/bin/true".to_string(),
        args: Vec::new(),
        user: user.map(|u| u.to_string()),
        environment: Vec::new(),
    }
}

#[test]
fn find_service_requires_configured_user() {
    let registry = ActivationRegistry::from_services(vec![
        service("com.example.NoUser", None),
        service("com.example.WithUser", Some("nobody")),
    ]);
    assert_eq!(
        find_service(&registry, "com.example.NoUser").unwrap_err(),
        HelperError::NoUserConfigured("com.example.NoUser".into())
    );
    assert_eq!(
        find_service(&registry, "com.example.Missing").unwrap_err(),
        HelperError::ServiceNotFound("com.example.Missing".into())
    );
    let found = find_service(&registry, "com.example.WithUser").unwrap();
    assert_eq!(found.user.as_deref(), Some("nobody"));
}

#[test]
fn activation_registry_lookups() {
    let reg = ActivationRegistry::from_services(vec![service("a.b", None), service("c.d", Some("x"))]);
    assert!(reg.is_activatable("a.b"));
    assert!(!reg.is_activatable("e.f"));
    assert_eq!(reg.lookup("c.d").unwrap().user.as_deref(), Some("x"));
    let mut names = reg.list_activatable_names();
    names.sort();
    assert_eq!(names, vec!["a.b".to_string(), "c.d".to_string()]);
}

#[test]
fn parse_args_requires_exactly_one_name() {
    assert_eq!(parse_args(&[]), Err(HelperError::InvalidArgs));
    assert_eq!(parse_args(&["a".into(), "b".into()]), Err(HelperError::InvalidArgs));
    assert_eq!(parse_args(&["--help".into()]), Err(HelperError::InvalidArgs));
    assert_eq!(parse_args(&["com.example.Foo".into()]), Ok("com.example.Foo"));
}

#[test]
fn check_permissions_rejects_wrong_real_uid() {
    let result = check_permissions("messagebus", 1000, 0, |_| Some(81));
    assert_eq!(result, Err(HelperError::PermissionsInvalid("not invoked from user 'messagebus'".into())));
}

#[test]
fn check_permissions_rejects_non_root_effective_uid() {
    let result = check_permissions("messagebus", 81, 81, |_| Some(81));
    assert_eq!(result, Err(HelperError::PermissionsInvalid("not setuid root".into())));
}

#[test]
fn check_permissions_accepts_correct_caller() {
    assert!(check_permissions("messagebus", 81, 0, |_| Some(81)).is_ok());
}

#[test]
fn check_permissions_rejects_unknown_dbus_user() {
    let result = check_permissions("nosuchuser", 81, 0, |_| None);
    assert!(matches!(result, Err(HelperError::PermissionsInvalid(_))));
}

#[test]
fn helper_exit_codes() {
    assert_eq!(HelperError::InvalidArgs.exit_code(), 2);
    assert_eq!(HelperError::ExecFailed("x".into()).exit_code(), 10);
    assert_eq!(HelperError::ServiceNotFound("a.b".into()).message(), "the name a.b was not provided by any service files");
}

#[test]
fn apparmor_query_layout() {
    let q = build_query("label", "system", Some("a.b"), None, None, None, None);
    let mut expected = vec![0u8; 6];
    expected.extend_from_slice(b"label");
    expected.push(0);
    expected.push(AA_CLASS_DBUS);
    expected.extend_from_slice(b"system");
    expected.push(0);
    expected.extend_from_slice(b"a.b");
    assert_eq!(q, expected);
}

#[test]
fn apparmor_denial_is_logged() {
    let (ok, msg) = finish_permission_check(AA_DBUS_SEND, Some(false), "session", Some("a.b"), None, None, Some("M"), None);
    assert!(!ok);
    assert_eq!(
        msg.unwrap(),
        "apparmor=\"DENIED\" operation=\"dbus_method_call\" info=\"send\" bus=\"session\" name=\"a.b\" member=\"M\""
    );
    let (ok2, msg2) = finish_permission_check(AA_DBUS_SEND, None, "session", None, None, None, None, None);
    assert!(ok2 && msg2.is_none());
}

#[test]
fn stats_counters_wrap() {
    let mut s = Stats::new(10);
    s.record_routed(u64::MAX);
    s.record_routed(2);
    assert_eq!(s.messages_routed, 2);
    assert_eq!(s.bytes_routed, 1);
    assert_eq!(s.uptime_secs(15), 5);
    assert_eq!(s.uptime_secs(5), 0);
}
