use hook_allowlist::{Action, AllowList, AllowSet, Cidr, Event, Reconciler, Report, Stage};

fn set_of(items: &[&str]) -> AllowSet {
    AllowSet::from_vec(items.iter().map(|s| Cidr::parse(s).unwrap()).collect())
}

fn reconciler(content: &str) -> Reconciler {
    let (list, _) = AllowList::load(content);
    Reconciler::new(list)
}

/// Runs one cycle in which the fetch gives `fetched` and writes and the hook
/// succeed; returns the text written, if any, whether the hook ran, and the
/// report.
fn cycle(r: &mut Reconciler, fetched: Option<AllowSet>) -> (Option<String>, bool, Report) {
    assert!(matches!(r.step(Event::Tick), Action::Fetch));
    let event = match fetched {
        Some(set) => Event::Fetched(set),
        None => Event::FetchFailed,
    };
    let mut written = None;
    let mut hook = false;
    let mut action = r.step(event);
    loop {
        match action {
            Action::Write(text) => {
                written = Some(text);
                action = r.step(Event::Saved);
            }
            Action::RunHook => {
                hook = true;
                action = r.step(Event::from_exit_code(Some(0)));
            }
            Action::Finish(report) => return (written, hook, report),
            Action::Fetch | Action::Nothing => panic!("unexpected action"),
        }
    }
}

#[test]
fn first_fetch_writes_both_entries_and_runs_hook() {
    let mut r = reconciler("");
    let (written, hook, report) = cycle(&mut r, Some(set_of(&["10.0.0.0/24", "192.168.1.1/32"])));
    let written = written.unwrap();
    let mut lines: Vec<&str> = written.lines().collect();
    lines.sort();
    assert_eq!(lines, vec!["allow 10.0.0.0/24;", "allow 192.168.1.1/32;"]);
    assert!(written.ends_with('\n'));
    assert!(hook);
    assert_eq!(report, Report::Changed);
    assert_eq!(r.stage(), Stage::Idle);
}

#[test]
fn failed_fetch_changes_nothing_and_next_cycle_runs() {
    let mut r = reconciler("allow 10.0.0.0/24;\n");
    let (written, hook, report) = cycle(&mut r, None);
    assert!(written.is_none());
    assert!(!hook);
    assert_eq!(report, Report::FetchFailed);
    assert_eq!(r.stage(), Stage::Idle);
    assert_eq!(r.store().save(), "allow 10.0.0.0/24;\n");
    let (written, hook, report) = cycle(&mut r, Some(set_of(&["10.0.0.0/24"])));
    assert!(written.is_none());
    assert!(!hook);
    assert_eq!(report, Report::Unchanged);
}

#[test]
fn corrupt_file_is_repopulated_by_next_fetch() {
    let mut r = reconciler("allow 10.0.0.0/24;\ngarbage\n");
    assert_eq!(r.store().allow_set().len(), 0);
    let (written, hook, report) = cycle(&mut r, Some(set_of(&["10.0.0.0/24"])));
    assert_eq!(written.unwrap(), "allow 10.0.0.0/24;\n");
    assert!(hook);
    assert_eq!(report, Report::Changed);
}

#[test]
fn hook_runs_once_per_changed_cycle() {
    let mut r = reconciler("");
    let fetches = [
        Some(set_of(&["10.0.0.0/24"])),
        Some(set_of(&["10.0.0.0/24"])),
        None,
        Some(set_of(&["10.0.0.0/24", "192.168.1.1/32"])),
        Some(set_of(&["192.168.1.1/32", "10.0.0.0/24"])),
        Some(set_of(&[])),
        Some(set_of(&[])),
    ];
    let mut hooks = 0;
    let mut changed = 0;
    for f in fetches {
        let (written, hook, report) = cycle(&mut r, f);
        if hook {
            hooks += 1;
        }
        if report == Report::Changed {
            changed += 1;
            assert!(written.is_some());
        } else {
            assert!(!hook);
            assert!(written.is_none());
        }
    }
    assert_eq!(hooks, 3);
    assert_eq!(changed, 3);
}

#[test]
fn failed_write_keeps_new_set_and_skips_hook() {
    let mut r = reconciler("");
    assert!(matches!(r.step(Event::Tick), Action::Fetch));
    assert!(matches!(r.step(Event::Fetched(set_of(&["10.0.0.0/24"]))), Action::Write(_)));
    assert!(matches!(r.step(Event::SaveFailed), Action::Finish(Report::PersistFailed)));
    assert_eq!(r.stage(), Stage::Idle);
    let (written, hook, report) = cycle(&mut r, Some(set_of(&["10.0.0.0/24"])));
    assert!(written.is_none());
    assert!(!hook);
    assert_eq!(report, Report::Unchanged);
}

#[test]
fn failed_hook_keeps_written_set() {
    let mut r = reconciler("");
    assert!(matches!(r.step(Event::Tick), Action::Fetch));
    assert!(matches!(r.step(Event::Fetched(set_of(&["10.0.0.0/24"]))), Action::Write(_)));
    assert!(matches!(r.step(Event::Saved), Action::RunHook));
    assert!(matches!(r.step(Event::from_exit_code(Some(2))), Action::Finish(Report::HookFailed)));
    assert_eq!(r.store().save(), "allow 10.0.0.0/24;\n");
}

#[test]
fn exit_codes_other_than_zero_fail() {
    assert!(matches!(Event::from_exit_code(Some(0)), Event::HookSucceeded));
    assert!(matches!(Event::from_exit_code(Some(1)), Event::HookFailed));
    assert!(matches!(Event::from_exit_code(None), Event::HookFailed));
}

#[test]
fn unexpected_event_is_ignored() {
    let mut r = reconciler("");
    assert!(matches!(r.step(Event::Saved), Action::Nothing));
    assert!(matches!(r.step(Event::Fetched(set_of(&["10.0.0.0/24"]))), Action::Nothing));
    assert_eq!(r.stage(), Stage::Idle);
    assert_eq!(r.store().allow_set().len(), 0);
}
