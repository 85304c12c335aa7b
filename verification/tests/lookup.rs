use rkubectl::args::{Args, Command};
use rkubectl::kubectl::KUB_CTL;
use rkubectl::manager::{
    commands_for_choice, get_candidate_pods, handle_multiple_results, missing_pick, typed_choice,
    Action, ChoiceOutcome, Event, Manager,
};
use rkubectl::pod::PodInfo;
use rkubectl::ranking::closest_pods;

fn pod(name: &str) -> PodInfo {
    PodInfo::from_fields((name, "1/1", "Running", "0", "1d", "10.0.0.1", "node", "<none>", "<none>"))
}

fn pods(names: &[&str]) -> Vec<PodInfo> {
    names.iter().map(|n| pod(n)).collect()
}

fn names(v: &[PodInfo]) -> Vec<String> {
    v.iter().map(|p| p.name().clone()).collect()
}

fn delete(name: &str) -> Command {
    Command::DELETE { name: name.to_string() }
}

fn manager(middle: Option<&str>) -> Manager {
    Manager::new(Args { completion: None, cmd: None, middle: middle.map(|m| m.to_string()) })
}

#[test]
fn candidates_are_pods_whose_name_holds_the_query() {
    let all = pods(&["sophon-kg-sophon2-a", "sophon-ui-sophon2-b", "sophon-kg-sophon2-c"]);
    assert_eq!(names(&get_candidate_pods(&all, "kg-sophon2")), vec!["sophon-kg-sophon2-a", "sophon-kg-sophon2-c"]);
    assert!(get_candidate_pods(&all, "nothing").is_empty());
    assert_eq!(get_candidate_pods(&all, "").len(), 3);
}

#[test]
fn closest_pods_are_the_three_smallest_keys_stably() {
    let all = pods(&["p0", "p1", "p2", "p3", "p4"]);
    let closest = closest_pods(&all, vec![5, 1, 3, 1, 0]);
    assert_eq!(names(&closest), vec!["p4", "p1", "p3"]);
    let two = pods(&["a", "b"]);
    assert_eq!(names(&closest_pods(&two, vec![7, 7])), vec!["a", "b"]);
    assert!(closest_pods(&Vec::new(), Vec::new()).is_empty());
}

#[test]
fn choices_pick_candidates() {
    let c = delete("x");
    let cands = pods(&["p0", "p1", "p2"]);
    assert_eq!(commands_for_choice(&c, &cands, "a").unwrap(), vec![format!("{} delete po p0", KUB_CTL)]);
    assert_eq!(commands_for_choice(&c, &cands, "b").unwrap(), vec![format!("{} delete po p1", KUB_CTL)]);
    assert_eq!(commands_for_choice(&c, &cands, "c").unwrap(), vec![format!("{} delete po p2", KUB_CTL)]);
    assert_eq!(commands_for_choice(&c, &cands, "d").unwrap().len(), 3);
    assert!(commands_for_choice(&c, &cands, "e").is_none());
    assert!(commands_for_choice(&c, &cands, "ab").is_none());
    let two = pods(&["p0", "p1"]);
    assert!(commands_for_choice(&c, &two, "c").is_none());
}

#[test]
fn typed_lines_are_trimmed_and_lowercased() {
    let c = delete("x");
    let cands = pods(&["p0", "p1"]);
    match handle_multiple_results(&c, &cands, " B\n") {
        ChoiceOutcome::Commands(v) => assert_eq!(v, vec![format!("{} delete po p1", KUB_CTL)]),
        _ => panic!("expected commands"),
    }
    match handle_multiple_results(&c, &cands, "Z\n") {
        ChoiceOutcome::NoSuchChoice(s) => assert_eq!(s, "z"),
        _ => panic!("expected a rejected choice"),
    }
}

#[test]
fn picks_beyond_the_candidates_are_found_first() {
    assert_eq!(missing_pick(1, "b\n"), Some(1));
    assert_eq!(missing_pick(0, " A"), Some(0));
    assert_eq!(missing_pick(2, "b"), None);
    assert_eq!(missing_pick(0, "c"), None);
    assert_eq!(missing_pick(0, "x"), None);
    assert_eq!(typed_choice("  D \n"), "d");
}

#[test]
fn lookup_starts_by_listing_with_the_middle_name_filled_in() {
    let m = manager(Some("-sophon"));
    match m.get_kub_command(&delete("kg2"), Event::Start) {
        Action::ListPods { query } => assert_eq!(query, "kg-sophon2"),
        _ => panic!("expected ListPods"),
    }
    assert_eq!(manager(None).pod_query(&delete("kg2")), "kg2");
}

#[test]
fn one_match_runs_at_once() {
    let m = manager(Some("-sophon"));
    let listed = pods(&["sophon-kg-sophon2-a", "sophon-ui-sophon2-b"]);
    match m.get_kub_command(&delete("kg2"), Event::PodsListed { pods: listed }) {
        Action::Run { commands } => assert_eq!(commands, vec![format!("{} delete po sophon-kg-sophon2-a", KUB_CTL)]),
        _ => panic!("expected Run"),
    }
}

#[test]
fn several_matches_ask_and_none_ranks() {
    let m = manager(None);
    let listed = pods(&["ui-1", "ui-2", "kg-1"]);
    match m.get_kub_command(&delete("ui"), Event::PodsListed { pods: listed }) {
        Action::AskChoice { candidates } => assert_eq!(names(&candidates), vec!["ui-1", "ui-2"]),
        _ => panic!("expected AskChoice"),
    }
    let listed = pods(&["ui-1"]);
    match m.get_kub_command(&delete("zz"), Event::PodsListed { pods: listed }) {
        Action::RankPods { query } => assert_eq!(query, "zz"),
        _ => panic!("expected RankPods"),
    }
}

#[test]
fn ranked_pods_are_offered_or_nothing_is_found() {
    let m = manager(None);
    let listed = pods(&["a", "b", "c", "d"]);
    match m.get_kub_command(&delete("x"), Event::PodsRanked { pods: listed, keys: vec![4, 3, 2, 1] }) {
        Action::AskChoice { candidates } => assert_eq!(names(&candidates), vec!["d", "c", "b"]),
        _ => panic!("expected AskChoice"),
    }
    match m.get_kub_command(&delete("x"), Event::PodsRanked { pods: Vec::new(), keys: Vec::new() }) {
        Action::NothingFound => {}
        _ => panic!("expected NothingFound"),
    }
}

#[test]
fn entered_choices_run_or_stop() {
    let m = manager(None);
    let c = delete("x");
    match m.get_kub_command(&c, Event::ChoiceEntered { candidates: pods(&["p0", "p1"]), line: "d\n".to_string() }) {
        Action::Run { commands } => assert_eq!(commands.len(), 2),
        _ => panic!("expected Run"),
    }
    match m.get_kub_command(&c, Event::ChoiceEntered { candidates: pods(&["p0", "p1"]), line: "c\n".to_string() }) {
        Action::RejectChoice { choice } => assert_eq!(choice, "c"),
        _ => panic!("expected RejectChoice"),
    }
    match m.get_kub_command(&c, Event::ChoiceEntered { candidates: Vec::new(), line: "a".to_string() }) {
        Action::MissingCandidate { index, len } => assert_eq!((index, len), (0, 0)),
        _ => panic!("expected MissingCandidate"),
    }
}

#[test]
fn manager_keeps_its_arguments() {
    let m = Manager::new(Args { completion: None, cmd: Some(delete("kg")), middle: None });
    assert!(m.args().middle.is_none());
    assert_eq!(m.args().cmd.as_ref().unwrap().pod_name(), "kg");
}
