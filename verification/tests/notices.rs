use dott::notify::{
    first_watch_notice, freed_notice, launch_agent_file, notification_script, plan_launch_agent,
    AgentPlan,
};
use dott::update::{
    installed_via_brew, newer_release, parse_version, read_release_reply, update_hint,
};

#[test]
fn scripts_quote_their_texts() {
    assert_eq!(
        notification_script("dott", "go.ai"),
        "display notification \"go.ai\" with title \"dott\""
    );
    assert_eq!(
        notification_script("a\"b", "c\\d\n\r\t\u{8}\u{c}\u{1}\u{1f}\u{7f}é—"),
        "display notification \"c\\\\d\\n\\r\\t\\b\\f\\u0001\\u001f\u{7f}é—\" with title \"a\\\"b\""
    );
}

#[test]
fn notices() {
    assert_eq!(freed_notice("go.ai"), "go.ai is now available to register!");
    assert_eq!(
        first_watch_notice("go.ai"),
        "Now watching go.ai — you'll be notified when it's available."
    );
}

#[test]
fn agent_files() {
    let expected = [
        "<?xml version=\"1.0\" encoding=\"UTF-8\"?>",
        "<!DOCTYPE plist PUBLIC \"-//Apple//DTD PLIST 1.0//EN\" \"http://www.apple.com/DTDs/PropertyList-1.0.dtd\">",
        "<plist version=\"1.0\">",
        "<dict>",
        "    <key>Label</key><string>com.dott.watch</string>",
        "    <key>ProgramArguments</key>",
        "    <array>",
        "        <string>/usr/local/bin/dott</string>",
        "        <string>--background-check</string>",
        "    </array>",
        "    <key>StartCalendarInterval</key>",
        "    <dict><key>Hour</key><integer>9</integer><key>Minute</key><integer>0</integer></dict>",
        "</dict>",
        "</plist>",
    ];
    assert_eq!(launch_agent_file("/usr/local/bin/dott"), expected.join("\n"));
}

#[test]
fn an_agent_is_written_once() {
    let path = "/opt/dott";
    let file = match plan_launch_agent(None, path) {
        AgentPlan::Write { unload, file } => {
            assert!(!unload);
            file
        }
        AgentPlan::Keep => panic!("expected a new file"),
    };
    assert_eq!(file, launch_agent_file(path));
    assert!(matches!(plan_launch_agent(Some(&file), path), AgentPlan::Keep));
    match plan_launch_agent(Some(&file), "/new/dott") {
        AgentPlan::Write { unload, file } => {
            assert!(unload);
            assert_eq!(file, launch_agent_file("/new/dott"));
        }
        AgentPlan::Keep => panic!("expected another file"),
    }
    assert!(matches!(plan_launch_agent(Some(""), path), AgentPlan::Write { unload: true, .. }));
}

#[test]
fn versions() {
    assert_eq!(parse_version("1.2.3"), Some((1, 2, 3)));
    assert_eq!(parse_version("1.2.3.beta"), Some((1, 2, 3)));
    assert_eq!(parse_version("+1.02.003"), Some((1, 2, 3)));
    assert_eq!(parse_version("1.2"), None);
    assert_eq!(parse_version("1.2.x"), None);
    assert_eq!(parse_version("1.2.3-rc"), None);
    assert_eq!(parse_version("1..3"), None);
    assert_eq!(parse_version("4294967295.0.0"), Some((4294967295, 0, 0)));
    assert_eq!(parse_version("4294967296.0.0"), None);
    assert_eq!(parse_version(""), None);
}

#[test]
fn only_later_releases_are_offered() {
    let some = |s: &str| Some(s.to_string());
    assert_eq!(newer_release("v0.2.0", "0.1.9"), some("0.2.0"));
    assert_eq!(newer_release("vv1.0.0", "0.9.9"), some("1.0.0"));
    assert_eq!(newer_release("0.1.10", "0.1.9"), some("0.1.10"));
    assert_eq!(newer_release("v0.1.9", "0.1.9"), None);
    assert_eq!(newer_release("v0.1.8", "0.1.9"), None);
    assert_eq!(newer_release("v0.0.99", "0.1.0"), None);
    assert_eq!(newer_release("latest", "0.1.9"), None);
    assert_eq!(newer_release("v0.2.0", "dev"), None);
    assert_eq!(newer_release("v", "0.1.0"), None);
}

#[test]
fn replies_about_releases() {
    let read = |s: &str| read_release_reply(s.as_bytes(), "0.1.0");
    assert_eq!(read("{\"tag_name\":\"v0.3.1\"}"), Some("0.3.1".to_string()));
    assert_eq!(read("{\"tag_name\":\"v0.1.0\"}"), None);
    assert_eq!(read("{\"tag_name\":3}"), None);
    assert_eq!(read("{\"name\":\"v0.3.1\"}"), None);
    assert_eq!(read("rate limit"), None);
    assert_eq!(read(""), None);
}

#[test]
fn where_to_get_a_release() {
    assert!(installed_via_brew("/usr/local/Cellar/dott/0.1.0/bin/dott"));
    assert!(installed_via_brew("/opt/homebrew/bin/dott"));
    assert!(installed_via_brew("/home/linuxbrew/.linuxbrew/bin/dott"));
    assert!(!installed_via_brew("/usr/bin/dott"));
    assert!(!installed_via_brew("homebrew"));
    assert!(!installed_via_brew(""));
    assert_eq!(update_hint("0.2.0", "/opt/homebrew/bin/dott"), "brew upgrade dott  (v0.2.0)");
    assert_eq!(
        update_hint("0.2.0", "/usr/bin/dott"),
        "github.com/yodatoshicom/dott/releases  (v0.2.0)"
    );
}
