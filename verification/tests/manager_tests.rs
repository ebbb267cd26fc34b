use typeahead::manager::FileSearchManager;
use typeahead::manager::plan_search;

#[test]
fn first_query_starts_the_timer() {
    let mut m = FileSearchManager::new();
    let r = m.on_user_query("ma".to_string());
    assert!(r.start_timer);
    assert!(r.cancel.is_none());
}

#[test]
fn unchanged_query_is_ignored() {
    let mut m = FileSearchManager::new();
    let r1 = m.on_user_query("ma".to_string());
    assert!(r1.start_timer);
    let r2 = m.on_user_query("ma".to_string());
    assert!(!r2.start_timer);
    assert!(r2.cancel.is_none());
    // A mode change alone is a change.
    let r3 = m.on_user_query_with_mode("ma".to_string(), true);
    assert!(!r3.start_timer); // timer already pending
    assert!(r3.cancel.is_none());
}

#[test]
fn burst_of_queries_coalesces_into_one_search() {
    let mut m = FileSearchManager::new();
    let queries = ["a", "ab", "abc", "abcd", "abcde"];
    let mut timers = 0;
    for q in queries {
        let r = m.on_user_query(q.to_string());
        if r.start_timer {
            timers += 1;
        }
    }
    assert_eq!(timers, 1);
    let launch = m.timer_fire();
    assert_eq!(launch.query, "abcde");
    assert!(!launch.force_glob);
}

#[test]
fn divergent_query_cancels_active_search() {
    let mut m = FileSearchManager::new();
    m.on_user_query("main".to_string());
    let launch = m.timer_fire();
    assert_eq!(launch.query, "main");
    // "foo" does not extend "main": the active search is cancelled.
    let r = m.on_user_query("foo".to_string());
    assert_eq!(r.cancel, Some(launch.token));
    assert!(r.start_timer);
    // The cancelled worker finishes and reads its flag as set: no event.
    let emit = m.on_search_complete(launch.token, true);
    assert!(!emit);
}

#[test]
fn extending_query_keeps_active_search() {
    let mut m = FileSearchManager::new();
    m.on_user_query("ma".to_string());
    let launch = m.timer_fire();
    // "main" extends "ma": the running search is retained.
    let r = m.on_user_query("main".to_string());
    assert!(r.cancel.is_none());
    assert!(r.start_timer);
    // The retained search completes uncancelled and emits its result.
    let emit = m.on_search_complete(launch.token, false);
    assert!(emit);
    // The new query then gets its own search.
    let second = m.timer_fire();
    assert_eq!(second.query, "main");
    assert_ne!(second.token, launch.token);
}

#[test]
fn stale_worker_does_not_clear_newer_slot() {
    let mut m = FileSearchManager::new();
    m.on_user_query("one".to_string());
    let first = m.timer_fire();
    let r = m.on_user_query("two".to_string());
    assert_eq!(r.cancel, Some(first.token));
    let second = m.timer_fire();
    // The stale worker hands its token back; the slot now belongs to
    // the newer search and stays.
    m.on_search_complete(first.token, true);
    let r2 = m.on_user_query("two!".to_string());
    // The newer search is still active and "two!" extends "two".
    assert!(r2.cancel.is_none());
    let emit = m.on_search_complete(second.token, false);
    assert!(emit);
}

#[test]
fn typing_scenario_end_to_end() {
    let mut m = FileSearchManager::new();
    // Typing "ma", "mai", "main" in quick succession: one timer.
    let mut timers = 0;
    for q in ["ma", "mai", "main"] {
        if m.on_user_query(q.to_string()).start_timer {
            timers += 1;
        }
    }
    assert_eq!(timers, 1);
    // The debounce elapses with the slot empty: one search, for "main".
    let launch = m.timer_fire();
    assert_eq!(launch.query, "main");
    // The result returns and is emitted.
    assert!(m.on_search_complete(launch.token, false));
    // Typing "foo" afterwards: no shared prefix with anything running
    // (nothing is running), a fresh timer, a fresh search for "foo".
    let r = m.on_user_query("foo".to_string());
    assert!(r.start_timer);
    assert!(r.cancel.is_none());
    let second = m.timer_fire();
    assert_eq!(second.query, "foo");
    assert!(m.on_search_complete(second.token, false));
}

#[test]
fn plan_uses_fuzzy_for_plain_queries() {
    let plan = plan_search("main", false);
    assert!(!plan.use_glob);
    assert_eq!(plan.query, "main");
}

#[test]
fn plan_uses_glob_when_query_has_glob_chars() {
    let plan = plan_search("*.rs", false);
    assert!(plan.use_glob);
    assert_eq!(plan.query, "*.rs");
}

#[test]
fn forced_glob_on_literal_query_appends_wildcard() {
    let plan = plan_search("ma", true);
    assert!(plan.use_glob);
    assert_eq!(plan.query, "ma*");
}

#[test]
fn forced_glob_with_glob_chars_keeps_query() {
    let plan = plan_search("m?in", true);
    assert!(plan.use_glob);
    assert_eq!(plan.query, "m?in");
}
