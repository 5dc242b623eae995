use kedu::launchd::{
    command_error_detail, launchctl_value, parse_uid, render_plist, service_is_missing,
    service_target, status_from_print, user_domain, xml_escape, ServiceStatus,
};

#[test]
fn plist_contains_daemon_arguments_and_launch_policy() {
    let plist = render_plist(
        "/opt/homebrew/bin/kedu",
        "/Users/test/Library/Logs/Kedu/kedu.log",
        "/Users/test/Library/Logs/Kedu/kedu-error.log",
    );

    assert!(plist.contains("<string>io.github.0x30.kedu</string>"));
    assert!(plist.contains("<string>/opt/homebrew/bin/kedu</string>"));
    assert!(plist.contains("<string>daemon</string>"));
    assert!(plist.contains("<key>RunAtLoad</key>\n    <true/>"));
    assert!(plist.contains("<key>KeepAlive</key>\n    <true/>"));
    assert!(plist.contains("<string>/Users/test/Library/Logs/Kedu/kedu.log</string>"));
    assert!(plist.contains("<string>/Users/test/Library/Logs/Kedu/kedu-error.log</string>"));
}

#[test]
fn plist_escapes_paths_as_xml_text() {
    let plist = render_plist(
        "/Applications/Kedu & Sons/<kedu>",
        "/tmp/a&b.log",
        "/tmp/error.log",
    );

    assert!(plist.contains("/Applications/Kedu &amp; Sons/&lt;kedu&gt;"));
    assert!(plist.contains("/tmp/a&amp;b.log"));
    assert!(!plist.contains("Kedu & Sons"));
}

#[test]
fn parses_launchctl_print_values() {
    let description = "\n\tstate = running\n\tpid = 1234\n";

    assert_eq!(launchctl_value(description, "state").as_deref(), Some("running"));
    assert_eq!(launchctl_value(description, "pid").as_deref(), Some("1234"));
    assert_eq!(launchctl_value(description, "missing"), None);
}

#[test]
fn escapes_every_special_character() {
    assert_eq!(xml_escape("a<b>&\"c'"), "a&lt;b&gt;&amp;&quot;c&apos;");
    assert_eq!(xml_escape("plain/path"), "plain/path");
}

#[test]
fn statuses_read_from_launchctl() {
    assert_eq!(status_from_print(false, "", "Could not find service \"x\" in domain"), Some(ServiceStatus::Stopped));
    assert_eq!(status_from_print(false, "Could not find service", ""), Some(ServiceStatus::Stopped));
    assert_eq!(status_from_print(false, "", "Boom"), None);
    assert_eq!(
        status_from_print(true, "x = {\n\tstate = running\n\tpid = 88\n}", ""),
        Some(ServiceStatus::Running { pid: Some(88) })
    );
    assert_eq!(
        status_from_print(true, "\tstate = running\n\tpid = abc\n", ""),
        Some(ServiceStatus::Running { pid: None })
    );
    assert_eq!(status_from_print(true, "\tstate = waiting\n", ""), Some(ServiceStatus::Loaded));
    assert!(service_is_missing("", "Could not find service"));
    assert!(!service_is_missing("fine", "fine"));
}

#[test]
fn status_text_and_flags() {
    assert_eq!(ServiceStatus::Stopped.to_text(), "stopped");
    assert_eq!(ServiceStatus::Loaded.to_text(), "loaded");
    assert_eq!(ServiceStatus::Running { pid: Some(1234) }.to_text(), "running (pid 1234)");
    assert_eq!(ServiceStatus::Running { pid: None }.to_text(), "running");
    assert!(ServiceStatus::Running { pid: None }.is_running());
    assert!(!ServiceStatus::Loaded.is_running());
    assert!(ServiceStatus::Loaded.is_loaded());
    assert!(!ServiceStatus::Stopped.is_loaded());
}

#[test]
fn targets_and_command_details() {
    assert_eq!(user_domain(501), "gui/501");
    assert_eq!(service_target(0), "gui/0/io.github.0x30.kedu");
    assert_eq!(parse_uid(" 501\n"), Some(501));
    assert_eq!(parse_uid("x"), None);
    assert_eq!(command_error_detail("out\n", "  err \n"), "err");
    assert_eq!(command_error_detail(" out ", "\n"), "out");
    assert_eq!(command_error_detail("", " "), "command returned no diagnostic output");
}
