use helios::address::ServerAddress;
use helios::config::{decode, PluginConfig};
use helios::config::DecodeError;
use helios::discovery::{
    build_batch, scan_directory, scan_entries, DirEntry, SkipReason, UpdateInfo,
};
use helios::plan::{consent_message, consent_prompt, plan_updates, Step};

fn entry(path: &str, contents: &str) -> DirEntry {
    DirEntry { path: path.to_string(), is_dir: false, contents: Some(contents.to_string()) }
}

fn example_entries() -> Vec<DirEntry> {
    vec![
        entry("a.toml", "name = \"foo\"\nversion = \"1.0\"\nserver_ip = \"1.2.3.4\"\n"),
        entry("b.toml", "name = \"bar\"\nversion = \"2.0\"\nserver_ip = \"5.6.7.8\"\n"),
    ]
}

fn info(name: &str, version: &str) -> Option<UpdateInfo> {
    Some(UpdateInfo { plugin_name: name.to_string(), new_version: version.to_string() })
}

#[test]
fn empty_directory_gives_empty_batch() {
    let found = scan_entries(&Vec::new());
    assert!(found.is_empty());
    let batch = build_batch(&found, &Vec::new());
    assert!(batch.is_empty());
    assert_eq!(consent_prompt(&batch), None);
}

#[test]
fn scan_skips_directories_unreadable_and_malformed_files() {
    let mut entries = example_entries();
    entries.insert(0, DirEntry { path: "sub".to_string(), is_dir: true, contents: None });
    entries.insert(1, DirEntry { path: "locked.toml".to_string(), is_dir: false, contents: None });
    entries.insert(2, entry("broken.toml", "name = "));
    entries.push(entry("partial.toml", "name = \"x\"\n"));
    let found = scan_entries(&entries);
    assert_eq!(found.len(), 2);
    assert_eq!(found[0].path, "a.toml");
    assert_eq!(found[0].config.name, "foo");
    assert_eq!(found[1].path, "b.toml");
    assert_eq!(found[1].config.server_ip, ServerAddress::V4([5, 6, 7, 8]));
}

#[test]
fn no_updates_give_empty_batch_and_no_steps() {
    let found = scan_entries(&example_entries());
    let batch = build_batch(&found, &vec![None, None]);
    assert!(batch.is_empty());
    assert_eq!(consent_prompt(&batch), None);
    assert_eq!(plan_updates(&batch, true), Vec::<Step>::new());
}

#[test]
fn example_scenario_updates_foo_only() {
    let found = scan_entries(&example_entries());
    let batch = build_batch(&found, &vec![info("foo", "1.1"), None]);
    assert_eq!(batch.len(), 1);
    assert_eq!(batch[0].plugin_name, "foo");
    assert_eq!(batch[0].source, 0);
    assert_eq!(batch[0].config_path, "a.toml");
    assert_eq!(batch[0].server_ip, ServerAddress::V4([1, 2, 3, 4]));

    let message = consent_prompt(&batch).unwrap();
    assert!(message.contains("foo"));
    assert!(!message.contains("bar"));

    let steps = plan_updates(&batch, true);
    assert_eq!(steps.len(), 3);
    assert_eq!(steps[0], Step::Install { candidate: 0 });
    match &steps[1] {
        Step::WriteConfig { path, text } => {
            assert_eq!(path, "a.toml");
            assert_eq!(
                decode(text),
                Ok(PluginConfig {
                    name: "foo".to_string(),
                    version: "1.1".to_string(),
                    server_ip: ServerAddress::V4([1, 2, 3, 4]),
                })
            );
        }
        other => panic!("unexpected step {:?}", other),
    }
    assert_eq!(steps[2], Step::Restart);
    assert_eq!(steps.iter().filter(|s| **s == Step::Restart).count(), 1);
    assert!(!steps.iter().any(|s| matches!(s, Step::WriteConfig { path, .. } if path == "b.toml")));
}

#[test]
fn consent_message_lists_every_candidate() {
    let found = scan_entries(&example_entries());
    let batch = build_batch(&found, &vec![info("Foo Plugin", "1.1"), info("Bar Plugin", "3.0")]);
    let expected = "Download the following updates?\n\n<ul style=\"max-height: 250px; overflow: hidden; overflow-y: scroll; text-align: left; display: inline-block;\"><li>Foo Plugin</li>\n\n<li>Bar Plugin</li></ul>";
    assert_eq!(consent_message(&batch), expected);
}

#[test]
fn declined_batch_has_no_steps() {
    let found = scan_entries(&example_entries());
    let batch = build_batch(&found, &vec![info("foo", "1.1"), info("bar", "2.1")]);
    assert_eq!(plan_updates(&batch, false), Vec::<Step>::new());
}

#[test]
fn installs_come_before_writes() {
    let found = scan_entries(&example_entries());
    let batch = build_batch(&found, &vec![info("foo", "1.1"), info("bar", "2.1")]);
    let steps = plan_updates(&batch, true);
    assert_eq!(steps.len(), 5);
    let last_install = steps.iter().rposition(|s| matches!(s, Step::Install { .. })).unwrap();
    let first_write = steps.iter().position(|s| matches!(s, Step::WriteConfig { .. })).unwrap();
    assert!(last_install < first_write);
    assert_eq!(steps[0], Step::Install { candidate: 0 });
    assert_eq!(steps[1], Step::Install { candidate: 1 });
    assert_eq!(steps[4], Step::Restart);
}

#[test]
fn commit_changes_only_the_version() {
    let found = scan_entries(&example_entries());
    let batch = build_batch(&found, &vec![info("foo", "1.1"), info("bar", "2.1")]);
    let steps = plan_updates(&batch, true);
    let mut writes = 0;
    for s in &steps {
        if let Step::WriteConfig { path, text } = s {
            let c = batch.iter().find(|c| &c.config_path == path).unwrap();
            let written = decode(text).unwrap();
            assert_eq!(written.name, c.config.name);
            assert_eq!(written.server_ip, c.config.server_ip);
            assert_eq!(written.version, c.new_version);
            assert_ne!(written.version, c.config.version);
            writes += 1;
        }
    }
    assert_eq!(writes, 2);
}

#[test]
fn skipped_files_are_reported_with_their_reason() {
    let mut entries = example_entries();
    entries.insert(0, DirEntry { path: "sub".to_string(), is_dir: true, contents: None });
    entries.insert(1, DirEntry { path: "locked.toml".to_string(), is_dir: false, contents: None });
    entries.insert(2, entry("broken.toml", "name = "));
    entries.push(entry("partial.toml", "name = \"x\"\n"));
    entries.push(entry("bad_ip.toml", "name = \"x\"\nversion = \"1\"\nserver_ip = \"1.2\"\n"));
    let skipped = scan_directory(&entries).skipped;
    assert_eq!(skipped.len(), 4);
    assert_eq!(skipped[0].path, "locked.toml");
    assert_eq!(skipped[0].reason, SkipReason::Unreadable);
    assert_eq!(skipped[1].path, "broken.toml");
    assert_eq!(skipped[1].reason, SkipReason::Malformed(DecodeError::Syntax));
    assert_eq!(skipped[2].path, "partial.toml");
    assert_eq!(skipped[2].reason, SkipReason::Malformed(DecodeError::MissingField));
    assert_eq!(skipped[3].path, "bad_ip.toml");
    assert_eq!(skipped[3].reason, SkipReason::Malformed(DecodeError::InvalidAddress));
    assert!(scan_directory(&example_entries()).skipped.is_empty());
}
