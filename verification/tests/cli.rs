//! What the command line decides and says.

use recuros::cli::branches::{
    archived_branch_note, branch_names, check_new_branch, created_note, merged_note,
    no_branches_note, print_branch, print_branch_dated, BranchInfo,
};
use recuros::cli::changes::{
    answered_yes, confirm, sync_note, total, Confirmation, Holding, SyncNote, Synced,
};
use recuros::cli::claims::{
    archived_note, claim_source, decide, document_source, duplicate_note, log_limit, pasted_note,
    print_change, print_change_dated, print_claim, print_claim_dated, rated_note, review, saved_note, visible_statuses,
    Claim, Source, Status, StatusChange, Verdict,
};
use recuros::cli::commands::{
    comparison_note, devices_note, example_note, failure_note, fixtures_path, is_agents_file,
    listening_note, map_written, node_note, pack_budget, pack_copied, pack_written, paired_note,
    reindexed_note, relay_initialised, require_store, revoked_note, state_note, sync_report,
    token_note, Comparison,
};
use recuros::cli::ideas::{idea_of_branch, list, sorted_names, BranchRow};
use recuros::cli::output::{holdings_text, is_taggable, plural, since_moment, tag};
use recuros::cli::project::{
    agent_note, choose_binding, document, init_head, init_tail, no_agents_note, off_path_note,
    onboard, pull_skipped, repo_root, session_context_note, session_document_note,
    session_has_context, status_branch, status_claims, status_node, status_repo, status_review,
    status_store, unknown_agent, use_note, use_target, Bound, Candidate, Chosen, CopyState,
    KindCount,
};
use recuros::cli::refine::{most_similar, no_duplicates_note, similar_note};
use recuros::cli::removal::{
    continue_removal, removal_target, start_removal, Answer, Order, Target,
};
use recuros::cli::renaming::{
    continue_rename, rename_closing, start_rename, Moved, RenameAnswer, RenameOrder,
};
use recuros::home::CtxHome;
use recuros::metadata::DeviceInfo;
use recuros::storage::{RelayStorage, StoreChoice};
use recuros::store::{create_connector_secret, init, MemoryRelayStore};

fn strings(items: &[&str]) -> Vec<String> {
    items.iter().map(|s| s.to_string()).collect()
}

fn text(s: &str) -> Option<String> {
    Some(s.to_string())
}

fn claim() -> Claim {
    Claim {
        id: "01J00000000000000000000000".to_string(),
        cid: "b3:7f2a99".to_string(),
        t_tx: 1_700_000_000,
        kind: "rejected".to_string(),
        text: "Covenant settlement".to_string(),
        first_line: "Covenant settlement".to_string(),
        why: None,
        refs: Vec::new(),
        entities: Vec::new(),
        branch: "main".to_string(),
        status: Status::Active,
        status_name: "active".to_string(),
        confidence: "medium".to_string(),
        src: "cli".to_string(),
    }
}

fn row(name: &str, claims: u64, docs: u64, archived: bool) -> BranchRow {
    BranchRow { name: name.to_string(), claims, docs, archived }
}

fn held(claims: u64, docs: u64) -> Holding {
    Holding { claims, docs }
}

#[test]
fn relay_initialisation_prints_one_time_credentials_and_node_status_is_safe_unpaired() {
    let status = node_note(&None);
    assert!(status.contains("node is not paired"), "{status}");

    let mut store = MemoryRelayStore::new();
    let secrets = init(&mut store, "relay").unwrap();
    let initialised = relay_initialised("relay", &secrets);
    assert!(initialised.contains("Bootstrap code"), "{initialised}");
    assert!(initialised.contains("Connector secret"), "{initialised}");
    assert!(initialised.contains("Authorization: Bearer"), "{initialised}");
    assert!(initialised.contains(&secrets.bootstrap_code));
    assert!(initialised.contains(&secrets.connector_secret));
    assert!(matches!(
        RelayStorage::default().store_at("relay"),
        StoreChoice::Sqlite { path } if path == "relay/relay.db"
    ));

    let token = token_note(&create_connector_secret(&mut store, "test").unwrap());
    assert!(token.contains("rcm_"), "{token}");

    let again = init(&mut store, "relay").unwrap_err();
    assert!(again.message().contains("already initialised"));
}

#[test]
fn rename_carries_an_idea_over_and_retires_the_old_name() {
    let (state, order) = start_rename("demo idea", "Better Idea");
    assert!(matches!(order, RenameOrder::Count(idea) if idea == "demo-idea"));
    let counted = RenameAnswer::Counted(vec![held(2, 0), held(0, 0)]);
    let (state, order) = continue_rename(state, counted);
    let RenameOrder::Ask(question) = order else {
        panic!("nothing asked")
    };
    assert_eq!(
        question,
        "Rename demo-idea to better-idea (2 claims, 0 document versions)? Nothing is lost; the old name is kept as history."
    );
    let (state, order) = continue_rename(state, RenameAnswer::Confirmed(true));
    assert!(matches!(
        order,
        RenameOrder::Move { from, to } if from == "demo-idea" && to == "better-idea"
    ));
    let renamed = RenameAnswer::Renamed {
        moved: Moved { claims: 2, docs: 1, branches: 2 },
        project: text("demo-idea"),
        branch: "research".to_string(),
    };
    let (_, order) = continue_rename(state, renamed);
    let RenameOrder::Finish { said, rebound } = order else {
        panic!("not finished")
    };
    assert!(said.contains("renamed demo-idea to better-idea: 2 claims"), "{said}");
    assert_eq!(
        said,
        "renamed demo-idea to better-idea: 2 claims, 1 document across 2 branches\n"
    );
    assert_eq!(
        rebound.unwrap(),
        "  this repo now uses better-idea/research\n"
    );

    // The list shows the new idea and not the retired one.
    let rows = vec![
        row("better-idea/research", 2, 0, false),
        row("demo-idea/research", 0, 0, true),
    ];
    let shown = list(&rows, &None, &None, false, "chats");
    assert!(shown.contains("better-idea/research"), "{shown}");
    assert!(!shown.contains("demo-idea"), "{shown}");
    assert!(list(&rows, &None, &None, true, "chats").contains("demo-idea"));
}

#[test]
fn a_renaming_that_is_not_confirmed_or_has_no_idea_changes_nothing() {
    let (state, _) = start_rename("a", "b");
    let (_, order) = continue_rename(state, RenameAnswer::Counted(Vec::new()));
    assert!(matches!(order, RenameOrder::Fail(e) if e == "no idea named `a`"));
    let (state, _) = start_rename("a", "b");
    let (state, _) = continue_rename(state, RenameAnswer::Counted(vec![held(1, 1)]));
    let (_, order) = continue_rename(state, RenameAnswer::Confirmed(false));
    assert!(matches!(order, RenameOrder::Stop(t) if t == "nothing renamed\n"));
    let (agents, cloud) = rename_closing(true, "chats");
    assert_eq!(agents, "  AGENTS.md updated\n");
    assert_eq!(cloud, "  synced: chats see the new name\n");
    assert_eq!(rename_closing(false, "chats").0, "");
}

#[test]
fn the_list_groups_branches_by_idea() {
    let rows = vec![
        row("a-b/code", 1, 0, false),
        row("a/code", 0, 2, false),
        row("a/research", 3, 0, true),
        row("gone/code", 0, 0, true),
        row("loose", 9, 9, false),
        row("z/code", 0, 0, false),
    ];
    let shown = list(&rows, &text("a/code"), &text("a"), false, "chats");
    let expected = "a  (this repo)\n  * a/code                   0 claims, 2 documents\n    a/research               3 claims  [deleted]\n    delete the whole idea:  ctx delete a --cloud   (3 claims, 2 document versions)\n\na-b\n    a-b/code                 1 claim\n    delete the whole idea:  ctx delete a-b --cloud   (1 claim, 0 document versions)\n\nz\n    z/code                   0 claims\n    empty:  ctx delete z --cloud\n\nDeleting hides it here, on GitHub, and in chats.\nNothing leaves the log: `ctx log --all` still shows it.\n1 deleted idea hidden; `ctx list -a` names them.\n";
    assert_eq!(shown, expected);
    let all = list(&rows, &None, &None, true, "chats");
    assert!(all.ends_with(
        "\n1 deleted idea: gone\nStill in the log: `ctx log --all --branch <idea>/<lane>`.\n"
    ));
    let none = "no ideas yet. Start one with: ctx new \"<your idea>\"\n";
    assert_eq!(list(&Vec::new(), &None, &None, true, "chats"), none);
    let gone = vec![row("gone/code", 0, 0, true), row("lost/code", 0, 0, true)];
    assert_eq!(list(&gone, &None, &None, false, "chats"), none);
    assert_eq!(
        list(&gone, &None, &None, true, "chats"),
        "\n2 deleted ideas: gone, lost\nStill in the log: `ctx log --all --branch <idea>/<lane>`.\n"
    );
}

#[test]
fn the_column_of_names_is_at_most_forty_four_wide() {
    let long = format!("idea/{}", "x".repeat(60));
    let rows = vec![row(&long, 1, 0, false), row("idea/y", 1, 0, false)];
    let shown = list(&rows, &None, &None, false, "chats");
    assert!(shown.contains(&format!("    {long} 1 claim\n")));
    assert!(shown.contains(&format!("    {:<44} 1 claim\n", "idea/y")));
    // Bytes decide on the width, characters on the filling.
    let accented = format!("idea/{}", "\u{e9}".repeat(13));
    let rows = vec![row(&accented, 1, 0, false)];
    let shown = list(&rows, &None, &None, false, "chats");
    assert!(shown.contains(&format!("    {accented:<31} 1 claim\n")));
}

#[test]
fn names_are_sorted_and_each_occurs_once() {
    assert_eq!(
        sorted_names(&strings(&["b", "a", "b", "a/c", "a-c", "\u{e9}", ""])),
        strings(&["", "a", "a-c", "a/c", "b", "\u{e9}"])
    );
    assert_eq!(idea_of_branch("a/b/c").as_deref(), Some("a"));
    assert_eq!(idea_of_branch("/b").as_deref(), Some(""));
    assert_eq!(idea_of_branch("ab"), None);
}

#[test]
fn counts_are_put_in_words() {
    assert_eq!(plural(0, "claim", "claims"), "0 claims");
    assert_eq!(plural(1, "claim", "claims"), "1 claim");
    assert_eq!(plural(21, "branch", "branches"), "21 branches");
    assert_eq!(holdings_text(1, 2), "1 claim, 2 document versions");
    let sum = total(&vec![held(1, 2), held(3, 4)]);
    assert_eq!((sum.claims, sum.docs), (4, 6));
}

#[test]
fn tags_are_the_first_four_bytes() {
    assert_eq!(tag("b3:7f2a99"), "[c:7f2a]");
    assert_eq!(tag("b3:7f"), "[c:7f]");
    assert_eq!(tag("7f2a99"), "[c:7f2a]");
    assert_eq!(tag("b3:"), "[c:]");
    assert_eq!(tag("\u{e9}\u{e9}x"), "[c:\u{e9}\u{e9}]");
    assert!(is_taggable("b3:7f2a99"));
    assert!(!is_taggable("abc\u{e9}d"));
}

#[test]
fn what_is_removed_is_told_by_its_form() {
    let meant = |s: &str| match removal_target(s) {
        Target::Claim(t) => format!("claim {t}"),
        Target::Branch(t) => format!("branch {t}"),
        Target::Idea(t) => format!("idea {t}"),
    };
    assert_eq!(meant(" c:7f2a "), "claim c:7f2a");
    assert_eq!(meant("b3:abc/d"), "claim b3:abc/d");
    assert_eq!(
        meant("01D39ZY06FGSCTVN4T2V9PKHFZ"),
        "claim 01D39ZY06FGSCTVN4T2V9PKHFZ"
    );
    assert_eq!(
        meant("01D39ZY06FGSCTVN4T2V9PKHFU"),
        "idea 01d39zy06fgsctvn4t2v9pkhfu"
    );
    assert_eq!(meant("idea/branch"), "branch idea/branch");
    assert_eq!(meant("My Idea"), "idea my-idea");
}

#[test]
fn a_claim_is_removed_without_asking() {
    let (state, order) = start_removal("c:7f2a");
    assert!(matches!(order, Order::FindClaim(t) if t == "c:7f2a"));
    let found = |archived| Answer::Claim {
        archived,
        cid: "b3:7f2a99".to_string(),
        first_line: "Use SQLite".to_string(),
    };
    let (state, order) = continue_removal(state, found(false), false);
    assert!(matches!(order, Order::Archive));
    let (_, order) = continue_removal(state, Answer::Archived, false);
    assert!(matches!(order, Order::Finish(t) if t
        == "deleted [c:7f2a] \"Use SQLite\"\ngone from packs, search and AGENTS.md; still in the history (the log is never erased)\n"));
    let (state, _) = start_removal("c:7f2a");
    let (_, order) = continue_removal(state, found(true), false);
    assert!(matches!(order, Order::Stop(t) if t == "[c:7f2a] is already deleted\n"));

    // What must reach the cloud is synced even where it was deleted before,
    // and a sync that stays on this machine then fails.
    let (state, _) = start_removal("c:7f2a");
    let (_, order) = continue_removal(state, found(true), true);
    assert!(matches!(order, Order::Finish(t) if t == "[c:7f2a] is already deleted\n"));
    assert!(matches!(sync_note(Synced::LocalOnly, true, "chats"), SyncNote::Fail(_)));
    let offline = Synced::Failed("offline".to_string());
    assert!(matches!(sync_note(offline, true, "chats"), SyncNote::Fail(_)));
}

fn counted_branch(name: &str, held: Holding, known: bool) -> Answer {
    Answer::Branch { name: name.to_string(), held, known }
}

#[test]
fn a_branch_or_idea_is_removed_only_when_confirmed() {
    let (state, order) = start_removal("idea/code");
    assert!(matches!(order, Order::CountBranch(b) if b == "idea/code"));
    let (state, order) =
        continue_removal(state, counted_branch("idea/code", held(2, 1), true), false);
    assert!(matches!(order, Order::Ask(q)
        if q == "Delete branch idea/code (2 claims, 1 document version)?"));
    let (state, order) = continue_removal(state, Answer::Confirmed(true), false);
    assert!(matches!(order, Order::RemoveBranch(b) if b == "idea/code"));
    let (_, order) =
        continue_removal(state, Answer::Removed { branches: 1, gone: held(2, 1) }, false);
    assert!(matches!(order, Order::Finish(t)
        if t.starts_with("deleted idea/code: 2 claims, 1 document version\ngone from packs")));

    let (state, _) = start_removal("idea/none");
    let (_, order) =
        continue_removal(state, counted_branch("idea/none", held(0, 0), false), false);
    assert!(matches!(order, Order::Fail(e) if e == "no branch named `idea/none`"));

    let (state, order) = start_removal("My Idea");
    assert!(matches!(order, Order::CountIdea(i) if i == "my-idea"));
    let counted = Answer::Idea {
        branches: strings(&["my-idea/code", "my-idea/research"]),
        held: vec![held(1, 0), held(2, 5)],
    };
    let (state, order) = continue_removal(state, counted, false);
    assert!(matches!(order, Order::Ask(q) if q
        == "Delete the idea `my-idea` (my-idea/code, my-idea/research: 3 claims, 5 document versions)?"));
    let (state, order) = continue_removal(state, Answer::Confirmed(true), false);
    assert!(matches!(order, Order::RemoveIdea(i) if i == "my-idea"));
    let (_, order) =
        continue_removal(state, Answer::Removed { branches: 2, gone: held(3, 5) }, false);
    assert!(matches!(order, Order::Finish(t)
        if t.starts_with("deleted my-idea: 2 branches, 3 claims, 5 document versions\n")));

    let (state, _) = start_removal("none");
    let (_, order) =
        continue_removal(state, Answer::Idea { branches: Vec::new(), held: Vec::new() }, false);
    assert!(matches!(order, Order::Fail(e) if e
        == "no idea named `none`. To delete one claim, use its tag: ctx delete c:xxxx"));

    for target in ["idea/code", "idea"] {
        let (state, order) = start_removal(target);
        let answer = match order {
            Order::CountBranch(name) => counted_branch(&name, held(1, 0), true),
            _ => Answer::Idea { branches: strings(&["idea/code"]), held: vec![held(1, 0)] },
        };
        let (state, _) = continue_removal(state, answer, false);
        let (_, order) = continue_removal(state, Answer::Confirmed(false), false);
        assert!(matches!(order, Order::Stop(t) if t == "nothing deleted\n"));
    }
}

#[test]
fn a_script_must_confirm_with_yes() {
    assert!(matches!(confirm("Sure?", true, false), Confirmation::Given));
    assert!(matches!(confirm("Sure?", false, true), Confirmation::Ask(q) if q == "Sure? [y/N] "));
    assert!(matches!(confirm("Sure?", false, false), Confirmation::Refuse(e)
        if e == "Sure? Re-run with --yes to confirm."));
    for yes in ["y", "Y\n", " yes "] {
        assert!(answered_yes(yes));
    }
    for no in ["", "n", "YES", "yess"] {
        assert!(!answered_yes(no));
    }
}

#[test]
fn a_sync_is_reported_as_strictly_as_it_was_asked_for() {
    assert!(matches!(sync_note(Synced::Remote, true, "chats"), SyncNote::Say(t)
        if t == "synced: chats see this now\n"));
    assert!(matches!(sync_note(Synced::LocalOnly, false, "chats"), SyncNote::Silent));
    assert!(matches!(sync_note(Synced::LocalOnly, true, "chats"), SyncNote::Fail(e)
        if e.contains("no git remote")));
    let failed = || Synced::Failed("offline".to_string());
    assert!(matches!(sync_note(failed(), false, "chats"), SyncNote::Warn(t)
        if t == "warning: couldn't sync (offline); chats will see this after your next `ctx sync`\n"));
    assert!(matches!(sync_note(failed(), true, "chats"), SyncNote::Fail(e)
        if e.ends_with("when online: offline")));
}

#[test]
fn a_claim_is_printed_on_a_line_and_in_full() {
    let mut c = claim();
    assert_eq!(
        print_claim(&c, false, true, "main").unwrap(),
        "2023-11-14 [c:7f2a]  rejected    Covenant settlement\n"
    );
    c.text = "Covenant settlement\n  second\r\nthird".to_string();
    c.why = text("too\nslow");
    c.refs = strings(&["a.rs", "b.rs"]);
    c.entities = strings(&["settlement"]);
    c.branch = "idea/code".to_string();
    c.status = Status::Superseded;
    c.status_name = "superseded".to_string();
    let pad = " ".repeat(20);
    let line = "2020-01-02 [c:7f2a]  rejected    Covenant settlement \u{2026} (superseded)  \u{b7} idea/code\n";
    assert_eq!(print_claim_dated(&c, "2020-01-02", false, true, "main"), line);
    assert_eq!(
        print_claim_dated(&c, "2020-01-02", true, true, "main"),
        format!(
            "{line}{pad}  second\n{pad}third\n{pad}why:  too slow\n{pad}refs: a.rs, b.rs\n{pad}tags: settlement\n{pad}01J00000000000000000000000 \u{b7} idea/code \u{b7} superseded \u{b7} medium \u{b7} from cli\n"
        )
    );
    assert!(!print_claim_dated(&c, "2020-01-02", false, false, "main").contains("idea/code"));
    c.t_tx = i64::MAX;
    assert_eq!(print_claim(&c, false, true, "main"), None);
}

#[test]
fn history_is_printed_step_by_step() {
    let mut h = StatusChange { t_tx: 0, to: "archived".to_string(), reason: text("removed") };
    let pad = " ".repeat(20);
    assert_eq!(
        print_change(&h).unwrap(),
        format!("{pad}1970-01-01  \u{2192} archived: removed\n")
    );
    assert_eq!(
        print_change_dated(&h, "1999-12-31"),
        format!("{pad}1999-12-31  \u{2192} archived: removed\n")
    );
    h.reason = None;
    assert_eq!(
        print_change(&h).unwrap(),
        format!("{pad}1970-01-01  \u{2192} archived\n")
    );
}

#[test]
fn days_start_at_midnight_in_utc() {
    assert_eq!(since_moment(1970, 1, 1), Some(0));
    assert_eq!(since_moment(2015, 5, 15), Some(1431648000));
    assert_eq!(since_moment(2023, 2, 29), None);
}

#[test]
fn deleted_claims_are_shown_only_on_request() {
    assert_eq!(visible_statuses(true), []);
    let shown = visible_statuses(false);
    assert!(!shown.contains(&Status::Archived));
    assert_eq!(
        shown,
        [Status::Active, Status::Proposed, Status::Superseded, Status::Rejected]
    );
    assert_eq!(log_limit(0), None);
    assert_eq!(log_limit(50), Some(50));
}

#[test]
fn proposals_are_reviewed() {
    assert_eq!(review(&Vec::new()), "no pending proposals\n");
    let mut c = claim();
    c.status = Status::Proposed;
    c.text = "a\nb".to_string();
    c.why = text("because");
    assert_eq!(
        review(&vec![c]),
        "[c:7f2a]  rejected \u{2192} main  (from cli)\n    a\n    b\n    why: because\n\naccept: ctx review accept c:XXXX    reject: ctx review reject c:XXXX --reason \"...\"\n"
    );
    let mut c = claim();
    assert_eq!(
        decide(&c, Verdict::Accept).unwrap_err(),
        "[c:7f2a] is active, not proposed"
    );
    c.status = Status::Proposed;
    let (status, said) = decide(&c, Verdict::Accept).unwrap();
    assert_eq!((status, said.as_str()), (Status::Active, "accepted [c:7f2a] into main\n"));
    let (status, said) = decide(&c, Verdict::Reject).unwrap();
    assert_eq!(status, Status::Rejected);
    assert_eq!(said, "rejected [c:7f2a] (the reason is kept)\n");
}

#[test]
fn texts_to_save_come_from_where_they_are() {
    assert!(matches!(claim_source(text("-"), true), Ok(Source::Stdin)));
    assert!(matches!(claim_source(None, false), Ok(Source::Stdin)));
    assert!(matches!(claim_source(text("x"), false), Ok(Source::Given(t)) if t == "x"));
    assert!(claim_source(None, true).unwrap_err().starts_with("nothing to save"));

    // A file is taken literally; what is pasted or piped is unwrapped.
    assert!(matches!(
        document_source(false, text("protocol.md"), false, true),
        Ok((Source::File(p), false)) if p == "protocol.md"
    ));
    assert!(matches!(
        document_source(false, text("-"), true, true),
        Ok((Source::Stdin, true))
    ));
    assert!(matches!(document_source(true, None, false, true), Ok((Source::Clipboard, true))));
    assert!(matches!(document_source(false, None, false, false), Ok((Source::Stdin, true))));
    assert!(document_source(false, None, false, true).unwrap_err().starts_with("give a file"));
}

#[test]
fn saving_is_confirmed_in_words() {
    assert_eq!(
        saved_note("b3:7f2a99", "fact", "main"),
        "saved [c:7f2a] fact -> main\n"
    );
    assert_eq!(
        duplicate_note("b3:7f2a99", "ID"),
        "already recorded as [c:7f2a] (ID)\n"
    );
    assert_eq!(
        pasted_note(&strings(&["b3:aaaa1", "b3:bbbb2"]), &strings(&["b3:cccc3"]), "x/y"),
        "saved [c:aaaa] -> x/y\nsaved [c:bbbb] -> x/y\nalready recorded [c:cccc]\n"
    );
    assert_eq!(
        archived_note("b3:7f2a99"),
        "archived [c:7f2a] (still in the log; hidden from packs)\n"
    );
    assert_eq!(rated_note("b3:7f2a99"), "noted [c:7f2a]\n");
}

#[test]
fn branches_are_listed_with_their_counts() {
    let names = branch_names(strings(&["b/x", "a/x"]), &strings(&["c", "a/x", "c"]));
    assert_eq!(names, strings(&["a/x", "b/x", "c"]));
    let mut b = BranchInfo {
        name: "acme-api/code".to_string(),
        current: true,
        active: 12,
        proposed: 3,
        last_tx: Some(1_700_000_000),
        parent: text("research"),
        archived: true,
    };
    let line = print_branch(&b).unwrap();
    assert!(line.contains("* acme-api/code"), "{line}");
    assert_eq!(
        line,
        "* acme-api/code                   12 claims   3 proposed   last 2023-11-14  (inherits from research)  [archived]\n"
    );
    b.current = false;
    b.parent = None;
    b.archived = false;
    b.last_tx = None;
    assert_eq!(
        print_branch(&b).unwrap(),
        "  acme-api/code                   12 claims   3 proposed   last -\n"
    );
    assert!(print_branch_dated(&b, "x").ends_with("last x\n"));
    b.last_tx = Some(i64::MIN);
    assert_eq!(print_branch(&b), None);
}

#[test]
fn branches_are_changed_in_words() {
    assert!(check_new_branch("gtm", "acme/gtm").is_ok());
    assert_eq!(
        check_new_branch("gtm", "gtm").unwrap_err(),
        "branches live in a project: use `project/gtm`, or run inside a bound repo"
    );
    assert_eq!(created_note("a/b"), "created a/b\n");
    assert_eq!(
        merged_note(2, 1, "a/b", "a/c"),
        "merged 2 claim(s) from a/b into a/c (1 skipped: already there or not held)\n"
    );
    assert_eq!(
        archived_branch_note("a/b", 4),
        "archived a/b (4 claims flipped; nothing deleted)\n"
    );
    assert!(no_branches_note().starts_with("no branches yet"));
}

#[test]
fn a_repository_is_bound_once() {
    let (bound, write) = choose_binding(None, None, &None, text("Acme API"));
    assert_eq!((bound.project.as_str(), bound.branch.as_str()), ("acme-api", "code"));
    assert!(write);
    let (again, write) = choose_binding(None, None, &Some(bound), text("Other"));
    assert_eq!((again.project.as_str(), again.branch.as_str()), ("acme-api", "code"));
    assert!(!write);
    let existing = Some(Bound { project: "x".to_string(), branch: "y".to_string() });
    let (told, write) = choose_binding(text("New One"), text("Lane"), &existing, None);
    assert_eq!((told.project.as_str(), told.branch.as_str()), ("new-one", "lane"));
    assert!(write);
    assert_eq!(choose_binding(None, None, &None, None).0.project, "project");
}

#[test]
fn init_tells_what_it_did() {
    let bound = Bound { project: "acme-api".to_string(), branch: "code".to_string() };
    let doc = document("notes");
    assert_eq!(doc.file, ".ctx/NOTES.md");
    let head = init_head(&bound, &text("/h"), &doc, CopyState::Written);
    assert!(head.contains("RecurOS: acme-api/code"), "{head}");
    assert_eq!(
        head,
        "RecurOS: acme-api/code\n  created store at /h\n  \u{2713} .ctx/       config.yaml binds this repo to acme-api/code; commands.md for agents (commit it)\n  \u{2713} AGENTS.md   RecurOS section added; your own content is kept (commit it)\n  \u{2713} .ctx/NOTES.md  the notes from acme-api's research\n"
    );
    assert!(init_head(&bound, &None, &doc, CopyState::LeftAlone)
        .ends_with("  ! .ctx/NOTES.md  was edited by hand; left as is\n"));
    assert_eq!(
        init_head(&bound, &None, &doc, CopyState::Unchanged),
        head.replace("  created store at /h\n", "")
    );
    assert!(init_head(&bound, &None, &doc, CopyState::NoDocument).ends_with("(commit it)\n"));
    assert_eq!(
        agent_note("codex", &strings(&["one", "two\nlines"])),
        "  codex:\n    one\n    two\n    lines\n"
    );
    assert_eq!(
        unknown_agent("x", &strings(&["codex", "cursor"])),
        "unknown agent `x` (codex, cursor)"
    );
    assert!(no_agents_note().contains("no agents detected"));
    assert_eq!(off_path_note(true, "/bin/ctx"), "");
    assert!(off_path_note(false, "/bin/ctx").contains("configs point at /bin/ctx\n        put ctx"));
    let tail = init_tail(true, false, "/h");
    assert!(tail.contains("ctx onboard"));
    assert!(tail.ends_with("    git -C \"/h\" remote add origin <url> && ctx sync\n"));
    let tail = init_tail(false, true, "/h");
    assert!(!tail.contains("ctx onboard") && !tail.contains("remote add"));
}

#[test]
fn the_repository_is_the_nearest_directory_with_git() {
    let dir = |path: &str, has_git| Candidate { path: path.to_string(), has_git };
    let dirs = vec![dir("/a/b/c", false), dir("/a/b", true), dir("/a", true)];
    assert_eq!(repo_root("/a/b/c", &dirs), "/a/b");
    assert_eq!(repo_root("/a/b/c", &vec![dir("/", false)]), "/a/b/c");
}

#[test]
fn status_is_told_line_by_line() {
    assert_eq!(
        status_store("/h", &None),
        "store    /h\nremote   none (local only)\n"
    );
    assert_eq!(status_store("/h", &text("url")), "store    /h\nremote   url\n");
    let repo = Some(("/r".to_string(), "a/b".to_string()));
    assert_eq!(status_repo(&repo), "repo     /r \u{2192} a/b\n");
    assert!(status_repo(&None).contains("not bound"));
    assert_eq!(status_branch("a/b"), "branch   a/b\n");
    let node = Some(("url".to_string(), "dev".to_string(), "a/b".to_string()));
    assert_eq!(status_node(&node), "node     dev via url (a/b)\n");
    assert!(status_node(&None).contains("not paired"));
    let kinds = vec![KindCount { kind: "fact".to_string(), count: 7 }];
    assert_eq!(status_claims(7, &kinds), "claims   7 total\n             7 fact\n");
    assert_eq!(status_review(0), "");
    assert_eq!(
        status_review(2),
        "review   2 pending proposal(s): `ctx review`\n"
    );
    let rendered = node_note(&node);
    assert_eq!(
        rendered,
        "paired relay: url\ndevice: dev\nserving branch: a/b\nstart remote access: ctx node start\n"
    );
}

#[test]
fn a_bare_name_outside_a_repository_is_an_idea() {
    assert!(matches!(use_target(" habit ", false, "main"), Chosen::Exactly(b)
        if b == "habit/research"));
    assert!(matches!(use_target("habit", true, "main"), Chosen::Resolve(n) if n == "habit"));
    assert!(matches!(use_target("a/b", false, "main"), Chosen::Resolve(n) if n == "a/b"));
    assert!(matches!(use_target("main", false, "main"), Chosen::Resolve(n) if n == "main"));
    assert_eq!(use_note("a/b", true), ("active branch: a/b\n".to_string(), String::new()));
    assert!(use_note("a/b", false).1.starts_with("note: `a/b` has nothing saved yet"));
}

#[test]
fn the_session_hook_is_silent_when_nothing_changed() {
    let doc = document("notes");
    assert_eq!(session_document_note(&doc, false), "");
    assert_eq!(session_context_note(&None), "");
    assert!(session_document_note(&doc, true).contains(".ctx/NOTES.md is updated"));
    assert!(session_context_note(&text("block")).ends_with("Current version:\n\nblock\n"));
    assert_eq!(pull_skipped("slow"), "ctx: pull skipped (slow)\n");
    assert!(session_has_context(true, true));
    assert!(!session_has_context(false, true) && !session_has_context(true, false));
    // A failing hook never breaks a session; any other command fails.
    assert_eq!(failure_note(true, "e"), ("ctx hook: e\n".to_string(), true));
    assert_eq!(failure_note(false, "e"), ("error: e\n".to_string(), false));
}

#[test]
fn onboarding_needs_a_bound_directory() {
    assert_eq!(onboard(true, "prompt", false, "tools").unwrap(), "prompt");
    assert_eq!(
        onboard(true, "prompt", true, "tools").unwrap(),
        "copied. Paste it into tools.\n"
    );
    assert!(onboard(false, "prompt", true, "tools").unwrap_err().contains("ctx init"));
}

#[test]
fn packs_have_the_budget_that_fits_them() {
    assert_eq!(pack_budget(Some(7), true, 99), Some(7));
    assert_eq!(pack_budget(None, true, 99), Some(99));
    assert_eq!(pack_budget(None, false, 99), None);
    assert!(is_agents_file("AGENTS.md") && is_agents_file("agents.MD"));
    assert!(!is_agents_file("AGENTS.mdx") && !is_agents_file("AGENT5.md"));
    assert_eq!(pack_written("p", 2, 30), "wrote p (2 claims, ~30 tokens)\n");
    assert_eq!(
        pack_copied(2, 30),
        "copied 2 claims (~30 tokens) to the clipboard: paste it into any chat\n"
    );
    assert!(map_written("MAP.md").starts_with("wrote MAP.md (renders"));
}

#[test]
fn the_other_commands_say_what_they_did() {
    assert_eq!(sync_report(&text("url"), true, "/h"), "synced with url\n");
    assert_eq!(
        sync_report(&None, false, "/h"),
        "committed locally: nothing new (no remote yet; to sync: git -C \"/h\" remote add origin <private repo url>)\n"
    );
    assert!(sync_report(&None, true, "/h").starts_with("committed locally (no remote"));
    assert_eq!(comparison_note(&Comparison::InSync), "in-sync\n");
    assert_eq!(
        comparison_note(&Comparison::Behind(3)),
        "behind: that side is missing 3 claim(s) this machine has\n"
    );
    assert!(comparison_note(&Comparison::AheadOrDiverged).contains("ctx sync"));
    assert_eq!(state_note("root", "a/b"), "root  a/b\n");
    assert!(require_store(true, "/h").is_ok());
    assert_eq!(require_store(false, "/h").unwrap_err(), "no RecurOS store at /h");
    let out = reindexed_note(2, 1, "5ms");
    assert!(out.starts_with("reindexed 2 claims from 1 shards"), "{out}");
    let home = CtxHome::at("/h".to_string());
    assert_eq!(fixtures_path(None, &home), "/h/refs/eval.yaml");
    assert_eq!(fixtures_path(text("f"), &home), "f");
    assert_eq!(example_note(true, "f").unwrap_err(), "f already exists");
    assert!(example_note(false, "f").unwrap().starts_with("wrote f: edit it"));
    assert!(paired_note("dev", "a/b").starts_with("paired this device as dev\nit will serve"));
    assert_eq!(revoked_note("d"), "revoked device d\n");
    assert!(listening_note("addr").starts_with("ctx relay listening on http://addr. "));
    let device = |active, revoked| DeviceInfo { id: "d".to_string(), active, revoked };
    assert_eq!(devices_note(&Vec::new()), "no devices enrolled\n");
    assert_eq!(
        devices_note(&vec![device(true, false), device(false, true)]),
        "d  active\nd  inactive, revoked\n"
    );
}

#[test]
fn the_most_similar_pairs_come_first() {
    assert_eq!(most_similar(&vec![5, 9, 5, 7]), [1, 3, 0, 2]);
    let many: Vec<u64> = (0..40).collect();
    let first = most_similar(&many);
    assert_eq!(first.len(), 30);
    assert_eq!((first[0], first[29]), (39, 10));
    let c = claim();
    assert_eq!(
        similar_note("80", &c, &c),
        "80% similar\n  [c:7f2a] Covenant settlement\n  [c:7f2a] Covenant settlement\n  merge: ctx save \"<combined>\" --supersedes 01J00000000000000000000000   then: ctx archive 01J00000000000000000000000\n"
    );
    assert!(no_duplicates_note("a/b", "0.6").starts_with("no near-duplicates on a/b at"));
}

#[test]
fn an_unknown_idea_is_not_renamed() {
    let (state, _) = start_rename("none", "other");
    let (_, order) = continue_rename(state, RenameAnswer::Counted(Vec::new()));
    assert!(matches!(order, RenameOrder::Fail(e) if e == "no idea named `none`"));
}
