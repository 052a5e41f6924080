use dmenu_launcher::dispatch::{plan_launch, Launch, Shell, ShellMode};
use dmenu_launcher::entry::{Entry, Run};
use dmenu_launcher::menu::{render_menu, resolve_selection, Codec, Pick};
use dmenu_launcher::order::{sort_by_keys, sort_entries};
use dmenu_launcher::resolve::{merge_discovered, resolve_entries, Found};
use dmenu_launcher::tag::Scheme;

fn shell_entry(name: &str, run: &str, group: i64) -> Entry {
    Entry { name: name.to_string(), run: Run::Shell(run.to_string()), group }
}

fn names(es: &[Entry]) -> Vec<(String, i64)> {
    es.iter().map(|e| (e.name.clone(), e.group)).collect()
}

fn strings(v: &[&str]) -> Vec<String> {
    v.iter().map(|s| s.to_string()).collect()
}

#[test]
fn decimal_tags_are_decimal_numbers() {
    assert_eq!(Scheme::Decimal.encode(0), "0");
    assert_eq!(Scheme::Decimal.encode(7), "7");
    assert_eq!(Scheme::Decimal.encode(42), "42");
    assert_eq!(Scheme::Decimal.encode(1000), "1000");
}

#[test]
fn ternary_tags_use_zero_width_symbols() {
    assert_eq!(Scheme::Ternary.encode(0), "\u{200B}");
    assert_eq!(Scheme::Ternary.encode(2), "\u{200D}");
    assert_eq!(Scheme::Ternary.encode(5), "\u{200C}\u{200D}");
    assert_eq!(Scheme::Ternary.encode(9), "\u{200C}\u{200B}\u{200B}");
}

#[test]
fn tag_round_trip_for_every_scheme() {
    let n: usize = 3000;
    for scheme in [Scheme::Decimal, Scheme::Ternary] {
        let sep = Codec::new(scheme, None).separator;
        for i in 0..n {
            for name in ["firefox", "", "x y z", "émacs"] {
                let line = format!("{}{}{}", scheme.encode(i), sep, name);
                assert_eq!(scheme.decode(&line, n), Some(i), "{:?} {}", scheme, line);
            }
        }
    }
}

#[test]
fn ternary_scheme_finds_no_tag_in_plain_text() {
    for text in ["42 is great", "hello world", "", "ls -la", "0:alpha", " \u{200B}"] {
        assert_eq!(Scheme::Ternary.decode(text, 1000), None);
    }
}

#[test]
fn decimal_scheme_reads_leading_digits_in_range_only() {
    assert_eq!(Scheme::Decimal.decode("42 is great", 43), Some(42));
    assert_eq!(Scheme::Decimal.decode("42 is great", 42), None);
    assert_eq!(Scheme::Decimal.decode("007 bond", 8), Some(7));
    assert_eq!(Scheme::Decimal.decode("hello", 100), None);
    assert_eq!(Scheme::Decimal.decode("", 100), None);
    assert_eq!(Scheme::Decimal.decode("0", 0), None);
    assert_eq!(Scheme::Decimal.decode("99999999999999999999999999 x", usize::MAX), None);
}

#[test]
fn codec_separator_defaults_per_scheme() {
    assert_eq!(Codec::new(Scheme::Decimal, None).separator, " ");
    assert_eq!(Codec::new(Scheme::Ternary, None).separator, "");
    assert_eq!(Codec::new(Scheme::Decimal, Some(":".to_string())).separator, ":");
}

#[test]
fn menu_has_one_tagged_line_per_entry() {
    let entries = vec![shell_entry("alpha", "echo a", 0), shell_entry("beta", "echo b", 0)];
    let codec = Codec::new(Scheme::Decimal, Some(":".to_string()));
    assert_eq!(render_menu(&codec, &entries), "0:alpha\n1:beta\n");
    let codec = Codec::new(Scheme::Ternary, None);
    assert_eq!(render_menu(&codec, &entries), "\u{200B}alpha\n\u{200C}beta\n");
    assert_eq!(render_menu(&codec, &Vec::new()), "");
}

#[test]
fn echoed_menu_line_selects_its_entry() {
    let entries = vec![shell_entry("alpha", "run-alpha", 0), shell_entry("beta", "run-beta", 0)];
    let codec = Codec::new(Scheme::Decimal, Some(":".to_string()));
    let menu = render_menu(&codec, &entries);
    let first_line = menu.lines().next().unwrap();
    assert_eq!(first_line, "0:alpha");
    let picks = resolve_selection(Scheme::Decimal, &entries, "0:alpha\n", true);
    assert_eq!(picks, vec![Pick::Run(Run::Shell("run-alpha".to_string()))]);
}

#[test]
fn ad_hoc_lines_are_gated() {
    let entries = vec![shell_entry("alpha", "run-alpha", 0)];
    let picks = resolve_selection(Scheme::Ternary, &entries, "ls -la\n", false);
    assert_eq!(picks, vec![Pick::Rejected("ls -la".to_string())]);
    assert!(picks.iter().all(|p| !matches!(p, Pick::Run(_))));
    let picks = resolve_selection(Scheme::Ternary, &entries, "ls -la\n", true);
    assert_eq!(picks, vec![Pick::Run(Run::Shell("ls -la".to_string()))]);
}

#[test]
fn selection_skips_blank_lines_and_trims() {
    let entries = vec![shell_entry("alpha", "run-alpha", 0), shell_entry("beta", "run-beta", 0)];
    let picks = resolve_selection(Scheme::Decimal, &entries, "  \n 1 beta  \n\n\t7 up \n", true);
    assert_eq!(
        picks,
        vec![
            Pick::Run(Run::Shell("run-beta".to_string())),
            Pick::Run(Run::Shell("7 up".to_string())),
        ]
    );
    assert_eq!(resolve_selection(Scheme::Decimal, &entries, "", true), vec![]);
    assert_eq!(resolve_selection(Scheme::Decimal, &entries, " \n\n", false), vec![]);
}

#[test]
fn configured_entries_default_their_action_and_group() {
    let e = Entry::configured("htop".to_string(), None, None, true);
    assert_eq!(e, shell_entry("htop", "htop", 0));
    let e = Entry::configured("htop".to_string(), None, Some(3), false);
    assert_eq!(e.run, Run::Bare(strings(&["htop"])));
    assert_eq!(e.group, 3);
    let e = Entry::configured("x".to_string(), Some(Run::Shell("y".to_string())), None, false);
    assert_eq!(e.run, Run::Shell("y".to_string()));
}

#[test]
fn discovered_executable_replaces_configured_run_and_keeps_group() {
    let found = vec![Found { path: "/usr/bin/foo".to_string(), name: "foo".to_string(), group: 0 }];
    let mut entries = vec![shell_entry("foo", "configured-foo", 5)];
    merge_discovered(&mut entries, 1, &found, true);
    assert_eq!(
        entries,
        vec![Entry {
            name: "foo".to_string(),
            run: Run::Bare(strings(&["/usr/bin/foo"])),
            group: 5
        }]
    );
}

#[test]
fn discovered_duplicate_is_dropped_without_replace() {
    let found = vec![Found { path: "/usr/bin/foo".to_string(), name: "foo".to_string(), group: 0 }];
    let mut entries = vec![shell_entry("foo", "configured-foo", 5)];
    merge_discovered(&mut entries, 1, &found, false);
    assert_eq!(entries, vec![shell_entry("foo", "configured-foo", 5)]);
}

#[test]
fn discovered_new_name_is_added_in_its_group() {
    let found = vec![
        Found { path: "/bin/bar".to_string(), name: "bar".to_string(), group: -2 },
        Found { path: "/opt/bar".to_string(), name: "bar".to_string(), group: -2 },
    ];
    let mut entries = vec![shell_entry("foo", "configured-foo", 5)];
    merge_discovered(&mut entries, 1, &found, true);
    assert_eq!(entries.len(), 3);
    assert_eq!(entries[1].run, Run::Bare(strings(&["/bin/bar"])));
    assert_eq!(entries[2].run, Run::Bare(strings(&["/opt/bar"])));
    assert_eq!(entries[2].group, -2);
}

#[test]
fn entries_sort_by_group_then_folded_then_exact_name() {
    let entries = vec![shell_entry("b", "b", 0), shell_entry("A", "A", 0), shell_entry("a", "a", 1)];
    let sorted = sort_entries(&entries);
    assert_eq!(names(&sorted), vec![("a".to_string(), 1), ("A".to_string(), 0), ("b".to_string(), 0)]);
}

#[test]
fn exact_name_breaks_folded_ties() {
    let entries = vec![shell_entry("a", "1", 0), shell_entry("B", "2", 0), shell_entry("A", "3", 0)];
    let sorted = sort_entries(&entries);
    assert_eq!(names(&sorted), vec![("A".to_string(), 0), ("a".to_string(), 0), ("B".to_string(), 0)]);
}

#[test]
fn sort_by_keys_follows_the_given_keys() {
    let entries = vec![shell_entry("x", "1", 0), shell_entry("y", "2", 0), shell_entry("z", "3", 7)];
    let keys = strings(&["b", "a", "c"]);
    let sorted = sort_by_keys(&entries, &keys);
    assert_eq!(names(&sorted), vec![("z".to_string(), 7), ("y".to_string(), 0), ("x".to_string(), 0)]);
}

#[test]
fn resolve_entries_merges_then_sorts() {
    let configured = vec![shell_entry("Zed", "zed", 0), shell_entry("foo", "configured-foo", 5)];
    let found = vec![
        Found { path: "/bin/foo".to_string(), name: "foo".to_string(), group: 0 },
        Found { path: "/bin/abc".to_string(), name: "abc".to_string(), group: 0 },
    ];
    let r = resolve_entries(configured, &found, true);
    assert_eq!(names(&r), vec![("foo".to_string(), 5), ("abc".to_string(), 0), ("Zed".to_string(), 0)]);
    assert_eq!(r[0].run, Run::Bare(strings(&["/bin/foo"])));
}

#[test]
fn bare_actions_start_their_first_word() {
    let shell = Shell { mode: ShellMode::Disabled, program: "sh".to_string(), args: strings(&["-c"]) };
    assert_eq!(plan_launch(&Run::Bare(vec![]), &shell), Launch::Nothing);
    assert_eq!(
        plan_launch(&Run::Bare(strings(&["ls", "-la", "/"])), &shell),
        Launch::Spawn { program: "ls".to_string(), args: strings(&["-la", "/"]) }
    );
}

#[test]
fn shell_actions_follow_the_shell_mode() {
    let run = Run::Shell("echo hi | wc".to_string());
    let mut shell = Shell { mode: ShellMode::Disabled, program: "sh".to_string(), args: strings(&["-c"]) };
    assert_eq!(plan_launch(&run, &shell), Launch::Blocked("echo hi | wc".to_string()));
    shell.mode = ShellMode::Argv;
    assert_eq!(
        plan_launch(&run, &shell),
        Launch::Spawn { program: "sh".to_string(), args: strings(&["-c", "echo hi | wc"]) }
    );
    shell.mode = ShellMode::Piped;
    shell.args = vec![];
    assert_eq!(
        plan_launch(&run, &shell),
        Launch::Pipe { program: "sh".to_string(), args: vec![], input: "echo hi | wc".to_string() }
    );
}

#[test]
fn every_command_of_a_batch_gets_a_launch() {
    let shell = Shell { mode: ShellMode::Argv, program: "sh".to_string(), args: strings(&["-c"]) };
    let runs = vec![
        Run::Bare(strings(&["true"])),
        Run::Bare(strings(&["no-such-program-anywhere"])),
        Run::Shell("true".to_string()),
    ];
    let launches: Vec<Launch> = runs.iter().map(|r| plan_launch(r, &shell)).collect();
    assert_eq!(launches.len(), 3);
    assert_eq!(
        launches[1],
        Launch::Spawn { program: "no-such-program-anywhere".to_string(), args: vec![] }
    );
    assert_eq!(launches[2], Launch::Spawn { program: "sh".to_string(), args: strings(&["-c", "true"]) });
}
