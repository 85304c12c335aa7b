//! The decisions of a lookup: which pods match the name given, whether to
//! fall back to a fuzzy search, whether to ask the user, and which kubectl
//! command lines to run. The caller performs each action (listing pods,
//! ranking them, reading the user's choice) and hands back what came of it.

use vstd::prelude::*;
use crate::args::{Args, Command, command_pod_name};
use crate::kubectl::{get_kub_command, kub_command_line};
use crate::middle::{filled_middle_name, filled_with_middle_name, is_ascii_text, version_start, regex_captures_of, MIDDLE_NAME_PATTERN};
use crate::pod::{PodInfo, PodRecord};
use crate::ranking::{are_closest, closest_pods, first_choices, is_stable_order, MAX_CHOICES};
use crate::text::{has_substring, occurs_at, lowercase_of, trim, contains, to_lowercase, trimmed, chars_of};

verus! {

/// Works out the kubectl command lines that the command line asks for.
pub struct Manager {
    args: Args,
}

/// What came of the last action.
pub enum Event {
    /// Nothing has been done yet.
    Start,
    /// The pods as listed (after `Action::ListPods`).
    PodsListed { pods: Vec<PodInfo> },
    /// The pods as listed again, each with the key of its distance to the
    /// name looked for (after `Action::RankPods`).
    PodsRanked { pods: Vec<PodInfo>, keys: Vec<u64> },
    /// The line the user typed when asked to choose among `candidates`.
    ChoiceEntered { candidates: Vec<PodInfo>, line: String },
}

/// What to do next.
pub enum Action {
    /// List the pods and hand them back as `Event::PodsListed`.
    ListPods { query: String },
    /// No pod name holds `query`: list the pods again, key each by its
    /// distance to `query`, and hand them back as `Event::PodsRanked`.
    RankPods { query: String },
    /// Show the candidates and hand back the line the user types as
    /// `Event::ChoiceEntered`.
    AskChoice { candidates: Vec<PodInfo> },
    /// Run these kubectl command lines.
    Run { commands: Vec<String> },
    /// The fuzzy search found no pod: stop without error.
    NothingFound,
    /// The user chose something that is not on offer: stop with an error.
    RejectChoice { choice: String },
    /// The user chose the candidate at `index`, but there are only `len`.
    MissingCandidate { index: usize, len: usize },
}

/// The views of a list of pods.
pub open spec fn pod_views(pods: Seq<PodInfo>) -> Seq<PodRecord> {
    pods.map_values(|p: PodInfo| p@)
}

/// The views of a list of strings.
pub open spec fn string_views(v: Seq<String>) -> Seq<Seq<char>> {
    v.map_values(|s: String| s@)
}

/// The name to look for: the command's pod name, with the middle name
/// filled in when one is given.
pub open spec fn query_for(middle: Option<String>, command: Command) -> Seq<char> {
    match middle {
        Some(m) => filled_middle_name(command_pod_name(command), m@),
        None => command_pod_name(command),
    }
}

/// The pod's name holds `query`.
pub open spec fn named_like(query: Seq<char>) -> spec_fn(PodRecord) -> bool {
    |r: PodRecord| has_substring(r.name, query)
}

/// The pods whose names hold `query`, in listing order.
pub open spec fn exact_matches(pods: Seq<PodRecord>, query: Seq<char>) -> Seq<PodRecord> {
    pods.filter(named_like(query))
}

/// The exact matches are the listed pods whose names hold the query: each
/// match holds it, each listed pod that holds it is a match, and there are
/// no more matches than pods.
pub proof fn lemma_exact_matches(pods: Seq<PodRecord>, query: Seq<char>)
    ensures
        forall|i: int| 0 <= i < exact_matches(pods, query).len() ==> has_substring(
            (#[trigger] exact_matches(pods, query)[i]).name,
            query,
        ),
        forall|i: int| 0 <= i < pods.len() && has_substring(pods[i].name, query)
            ==> #[trigger] exact_matches(pods, query).contains(pods[i]),
        exact_matches(pods, query).len() <= pods.len(),
{
    broadcast use vstd::seq_lib::group_filter_ensures;

    assert forall|i: int| 0 <= i < pods.len() && has_substring(pods[i].name, query) implies
        #[trigger] exact_matches(pods, query).contains(pods[i]) by {
        pods.lemma_filter_contains(named_like(query), i);
    }
}

/// Every name holds the empty text, so an empty name matches every pod.
pub proof fn lemma_empty_query_matches_all(pods: Seq<PodRecord>)
    ensures
        exact_matches(pods, Seq::<char>::empty()) == pods,
    decreases pods.len(),
{
    reveal(Seq::filter);
    if pods.len() > 0 {
        lemma_empty_query_matches_all(pods.drop_last());
        let name = pods.last().name;
        assert(name.subrange(0, 0) == Seq::<char>::empty());
        assert(occurs_at(name, Seq::<char>::empty(), 0));
        assert(pods.drop_last().push(pods.last()) == pods);
    }
}

/// With a middle name, the name looked for is the command's name with the
/// middle name filled in, whatever the name is.
pub proof fn lemma_query_with_middle(middle: String, command: Command)
    ensures
        query_for(Some(middle), command) == filled_middle_name(command_pod_name(command), middle@),
{
}

/// Without a middle name, the name looked for is the one the command gives.
pub proof fn lemma_query_without_middle(command: Command)
    ensures
        query_for(None, command) == command_pod_name(command),
{
}

/// The command lines for `command` on each of `pods`, in order.
pub open spec fn command_lines(command: Command, pods: Seq<PodRecord>) -> Seq<Seq<char>> {
    pods.map_values(|r: PodRecord| kub_command_line(command, r.name))
}

/// The text is the single character `c`.
pub open spec fn is_letter(s: Seq<char>, c: char) -> bool {
    s.len() == 1 && s[0] == c
}

/// The position a choice letter picks: `a`, `b` and `c` pick the first,
/// second and third candidate.
pub open spec fn picked_index(choice: Seq<char>) -> Option<int> {
    if is_letter(choice, 'a') {
        Some(0)
    } else if is_letter(choice, 'b') {
        Some(1)
    } else if is_letter(choice, 'c') {
        Some(2)
    } else {
        None
    }
}

/// The choice picks a position beyond the candidates where the lookup
/// indexes them without a check (`a` and `b`).
pub open spec fn picks_missing(choice: Seq<char>, count: nat) -> bool {
    ||| is_letter(choice, 'a') && count < 1
    ||| is_letter(choice, 'b') && count < 2
}

/// The command lines a choice leads to: `a`, `b` or `c` one line for that
/// candidate (`c` only when there are more than two), `d` one line per
/// candidate; `None` for anything else.
pub open spec fn chosen_lines(command: Command, candidates: Seq<PodRecord>, choice: Seq<char>) -> Option<Seq<Seq<char>>> {
    if is_letter(choice, 'd') {
        Some(command_lines(command, candidates))
    } else if is_letter(choice, 'c') && candidates.len() <= 2 {
        None
    } else {
        match picked_index(choice) {
            Some(i) => Some(seq![kub_command_line(command, candidates[i].name)]),
            None => None,
        }
    }
}

/// Choosing `d` gives one command line per candidate; `a`, `b` and `c`
/// give one line, except `c` with fewer than three candidates, which is
/// refused.
pub proof fn lemma_choice_line_counts(command: Command, candidates: Seq<PodRecord>, choice: Seq<char>)
    ensures
        is_letter(choice, 'd') ==> (chosen_lines(command, candidates, choice) matches Some(ls)
            && ls.len() == candidates.len()),
        is_letter(choice, 'a') || is_letter(choice, 'b') ==> (chosen_lines(
            command,
            candidates,
            choice,
        ) matches Some(ls) && ls.len() == 1),
        is_letter(choice, 'c') ==> (chosen_lines(command, candidates, choice) is Some
            <==> candidates.len() > 2),
        !(is_letter(choice, 'a') || is_letter(choice, 'b') || is_letter(choice, 'c') || is_letter(
            choice,
            'd',
        )) ==> chosen_lines(command, candidates, choice) is None,
{
}

/// The text is the single character `c`.
fn is_single(s: &str, c: char) -> (res: bool)
    ensures
        res == is_letter(s@, c),
{
    let chars = chars_of(s);
    chars.len() == 1 && chars[0] == c
}

/// The pods whose names hold `query`, in listing order.
pub fn get_candidate_pods(pods: &Vec<PodInfo>, query: &str) -> (res: Vec<PodInfo>)
    ensures
        pod_views(res@) == exact_matches(pod_views(pods@), query@),
{
    let ghost pv = pod_views(pods@);
    let mut res: Vec<PodInfo> = Vec::new();
    let mut i: usize = 0;
    while i < pods.len()
        invariant
            i <= pods@.len(),
            pv == pod_views(pods@),
            pod_views(res@) == exact_matches(pv.take(i as int), query@),
        decreases pods@.len() - i,
    {
        proof {
            reveal(Seq::filter);
            assert(pv.take(i + 1).drop_last() == pv.take(i as int));
            assert(pv.take(i + 1).last() == pods@[i as int]@);
        }
        if contains(pods[i].name().as_str(), query) {
            res.push(pods[i].copy());
            assert(pod_views(res@) == pod_views(res@.drop_last()).push(res@.last()@));
        }
        i += 1;
    }
    assert(pv.take(pods@.len() as int) == pv);
    res
}

/// The command lines for `command` on each of `pods`.
fn commands_for_all(command: &Command, pods: &Vec<PodInfo>) -> (res: Vec<String>)
    ensures
        string_views(res@) == command_lines(*command, pod_views(pods@)),
{
    let mut res: Vec<String> = Vec::new();
    let mut i: usize = 0;
    while i < pods.len()
        invariant
            i <= pods@.len(),
            string_views(res@) == command_lines(*command, pod_views(pods@.take(i as int))),
        decreases pods@.len() - i,
    {
        res.push(get_kub_command(command, pods[i].name().as_str()));
        assert(pods@.take(i + 1) == pods@.take(i as int).push(pods@[i as int]));
        assert(pod_views(pods@.take(i + 1)) == pod_views(pods@.take(i as int)).push(pods@[i as int]@));
        assert(command_lines(*command, pod_views(pods@.take(i + 1))) == command_lines(
            *command,
            pod_views(pods@.take(i as int)),
        ).push(kub_command_line(*command, pods@[i as int]@.name)));
        assert(string_views(res@) == string_views(res@.drop_last()).push(res@.last()@));
        i += 1;
    }
    assert(pods@.take(pods@.len() as int) == pods@);
    res
}

/// The command lines that a (trimmed, lowercased) choice leads to: `a`,
/// `b`, `c` the line for that candidate, `d` a line for every candidate;
/// `None` for anything else, and for `c` with fewer than three candidates.
pub fn commands_for_choice(command: &Command, candidates: &Vec<PodInfo>, choice: &str) -> (res: Option<Vec<String>>)
    requires
        !picks_missing(choice@, candidates@.len()),
    ensures
        match res {
            Some(v) => chosen_lines(*command, pod_views(candidates@), choice@) == Some(string_views(v@)),
            None => chosen_lines(*command, pod_views(candidates@), choice@) is None,
        },
{
    let ghost cv = pod_views(candidates@);
    let mut lines: Vec<String> = Vec::new();
    if is_single(choice, 'a') {
        lines.push(get_kub_command(command, candidates[0].name().as_str()));
        assert(string_views(lines@) == seq![kub_command_line(*command, cv[0].name)]);
        Some(lines)
    } else if is_single(choice, 'b') {
        lines.push(get_kub_command(command, candidates[1].name().as_str()));
        assert(string_views(lines@) == seq![kub_command_line(*command, cv[1].name)]);
        Some(lines)
    } else if is_single(choice, 'c') {
        if candidates.len() > 2 {
            lines.push(get_kub_command(command, candidates[2].name().as_str()));
            assert(string_views(lines@) == seq![kub_command_line(*command, cv[2].name)]);
            Some(lines)
        } else {
            None
        }
    } else if is_single(choice, 'd') {
        Some(commands_for_all(command, candidates))
    } else {
        None
    }
}

/// The choice a typed line stands for: trimmed and lowercased.
pub open spec fn choice_of(line: Seq<char>) -> Seq<char> {
    lowercase_of(trim(line))
}

/// What a choice among candidates leads to.
pub enum ChoiceOutcome {
    /// Run these command lines.
    Commands(Vec<String>),
    /// The choice is not on offer.
    NoSuchChoice(String),
}

/// The choice the user typed: the line trimmed and lowercased.
pub fn typed_choice(line: &str) -> (res: String)
    ensures
        res@ == choice_of(line@),
        trim(line@).len() == 0 ==> res@.len() == 0,
{
    let t = trimmed(line);
    to_lowercase(t.as_str())
}

/// The position a typed line picks beyond the `count` candidates there
/// are, where the lookup indexes them without a check (`a` with none, `b`
/// with fewer than two); `None` when it picks no such position.
pub fn missing_pick(count: usize, line: &str) -> (res: Option<usize>)
    ensures
        res is Some <==> picks_missing(choice_of(line@), count as nat),
        res matches Some(i) ==> picked_index(choice_of(line@)) == Some(i as int),
        trim(line@).len() == 0 ==> res is None,
{
    let choice = typed_choice(line);
    if is_single(choice.as_str(), 'a') && count < 1 {
        Some(0)
    } else if is_single(choice.as_str(), 'b') && count < 2 {
        Some(1)
    } else {
        None
    }
}

/// Takes the line the user typed to choose among `candidates` (`a`, `b`,
/// `c` for one of the first three, `d` for all) and gives the command lines
/// to run, or the choice when it is not on offer. A choice of `a` or `b`
/// beyond the candidates is left out (see [`missing_pick`]).
pub fn handle_multiple_results(command: &Command, candidates: &Vec<PodInfo>, line: &str) -> (res: ChoiceOutcome)
    requires
        !picks_missing(choice_of(line@), candidates@.len()),
    ensures
        ({
            let choice = choice_of(line@);
            match res {
                ChoiceOutcome::Commands(v) => chosen_lines(*command, pod_views(candidates@), choice)
                    == Some(string_views(v@)),
                ChoiceOutcome::NoSuchChoice(c) => chosen_lines(*command, pod_views(candidates@), choice)
                    is None && c@ == choice,
            }
        }),
        trim(line@).len() == 0 ==> res is NoSuchChoice,
{
    let choice = typed_choice(line);
    match commands_for_choice(command, candidates, choice.as_str()) {
        Some(v) => ChoiceOutcome::Commands(v),
        None => ChoiceOutcome::NoSuchChoice(choice),
    }
}

/// The action that follows `event` in a lookup for `command`, where
/// `middle` is the middle name given on the command line:
/// - at the start, list the pods;
/// - with the pods listed: when no pod name holds the name looked for,
///   rank the pods; when several do, ask the user to choose among them
///   (in listing order); when one does, run the command line for it;
/// - with the pods ranked: when there are none, stop; else ask the user to
///   choose among the closest ones;
/// - with a choice entered: run what it picks, reject it when it picks
///   nothing on offer, or report the missing candidate it indexes.
pub open spec fn next_action(middle: Option<String>, command: Command, event: Event, action: Action) -> bool {
    let q = query_for(middle, command);
    match event {
        Event::Start => action matches Action::ListPods { query } && query@ == q,
        Event::PodsListed { pods } => {
            let c = exact_matches(pod_views(pods@), q);
            if c.len() == 0 {
                action matches Action::RankPods { query } && query@ == q
            } else if c.len() > 1 {
                action matches Action::AskChoice { candidates } && pod_views(candidates@) == c
            } else {
                action matches Action::Run { commands } && string_views(commands@) == seq![
                    kub_command_line(command, c[0].name),
                ]
            }
        },
        Event::PodsRanked { pods, keys } => {
            if pods@.len() == 0 {
                action is NothingFound
            } else {
                action matches Action::AskChoice { candidates } && are_closest(
                    pod_views(pods@),
                    keys@,
                    pod_views(candidates@),
                )
            }
        },
        Event::ChoiceEntered { candidates, line } => {
            let ch = choice_of(line@);
            if picks_missing(ch, candidates@.len()) {
                action matches Action::MissingCandidate { index, len } && Some(index as int)
                    == picked_index(ch) && len == candidates@.len()
            } else {
                match chosen_lines(command, pod_views(candidates@), ch) {
                    Some(ls) => action matches Action::Run { commands } && string_views(commands@)
                        == ls,
                    None => action matches Action::RejectChoice { choice } && choice@ == ch,
                }
            }
        },
    }
}

impl Manager {
    /// The command line the manager works for.
    pub closed spec fn arguments(&self) -> Args {
        self.args
    }

    /// A manager for the given command line.
    pub fn new(args: Args) -> (res: Manager)
        ensures
            res.arguments() == args,
    {
        Manager { args }
    }

    /// The command line the manager works for.
    pub fn args(&self) -> (res: &Args)
        ensures
            *res == self.arguments(),
    {
        &self.args
    }

    /// The name to look for: the command's pod name, with the middle name
    /// filled in when the command line gives one.
    pub fn pod_query(&self, command: &Command) -> (res: String)
        ensures
            res@ == query_for(self.arguments().middle, *command),
            ({
                let name = command_pod_name(*command);
                match self.arguments().middle {
                    None => res@ == name,
                    Some(m) => !name.contains('\n') && is_ascii_text(name) ==> res@ == name.take(
                        version_start(name),
                    ) + m@ + name.skip(version_start(name)),
                }
            }),
    {
        let name = command.pod_name();
        match &self.args.middle {
            Some(middle) => filled_with_middle_name(name.as_str(), middle.as_str()),
            None => String::from_str(name.as_str()),
        }
    }

    /// The next step of the lookup for `command`, given what came of the
    /// last one.
    pub fn get_kub_command(&self, command: &Command, event: Event) -> (res: Action)
        requires
            event matches Event::PodsRanked { pods, keys } ==> keys@.len() == pods@.len(),
        ensures
            next_action(self.arguments().middle, *command, event, res),
            res matches Action::ListPods { query } ==> ({
                let name = command_pod_name(*command);
                match self.arguments().middle {
                    None => query@ == name,
                    Some(m) => !name.contains('\n') && is_ascii_text(name) ==> query@ == name.take(
                        version_start(name),
                    ) + m@ + name.skip(version_start(name)),
                }
            }),
            res matches Action::RankPods { query } ==> ({
                let name = command_pod_name(*command);
                match self.arguments().middle {
                    None => query@ == name,
                    Some(m) => !name.contains('\n') && is_ascii_text(name) ==> query@ == name.take(
                        version_start(name),
                    ) + m@ + name.skip(version_start(name)),
                }
            }),
            event matches Event::PodsRanked { pods, .. } && pods@.len() > 0 ==> (res matches Action::AskChoice {
                candidates,
            } && 0 < candidates@.len() <= MAX_CHOICES),
            res is NothingFound ==> (event matches Event::PodsRanked { pods, .. } && pods@.len() == 0),
            event matches Event::ChoiceEntered { line, .. } && trim(line@).len() == 0 ==> res is RejectChoice,
    {
        match event {
            Event::Start => Action::ListPods { query: self.pod_query(command) },
            Event::PodsListed { pods } => {
                let query = self.pod_query(command);
                let candidates = get_candidate_pods(&pods, query.as_str());
                if candidates.len() == 0 {
                    Action::RankPods { query }
                } else if candidates.len() > 1 {
                    Action::AskChoice { candidates }
                } else {
                    let mut commands: Vec<String> = Vec::new();
                    commands.push(get_kub_command(command, candidates[0].name().as_str()));
                    assert(string_views(commands@) == seq![
                        kub_command_line(*command, candidates@[0]@.name),
                    ]);
                    Action::Run { commands }
                }
            },
            Event::PodsRanked { pods, keys } => {
                let ghost key_view = keys@;
                let closest = closest_pods(&pods, keys);
                proof {
                    let order = choose|order: Seq<int>|
                        is_stable_order(key_view, order) && pod_views(closest@)
                            == first_choices(pod_views(pods@), order);
                    assert(is_stable_order(key_view, order));
                    assert(pod_views(closest@).len() == closest@.len());
                    assert(order.len() == pods@.len());
                    assert(closest@.len() == 0 <==> pods@.len() == 0);
                }
                if closest.len() == 0 {
                    Action::NothingFound
                } else {
                    Action::AskChoice { candidates: closest }
                }
            },
            Event::ChoiceEntered { candidates, line } => {
                match missing_pick(candidates.len(), line.as_str()) {
                    Some(index) => Action::MissingCandidate { index, len: candidates.len() },
                    None => match handle_multiple_results(command, &candidates, line.as_str()) {
                        ChoiceOutcome::Commands(commands) => Action::Run { commands },
                        ChoiceOutcome::NoSuchChoice(choice) => Action::RejectChoice { choice },
                    },
                }
            },
        }
    }
}


/// The pods an event lists (the listed or ranked pods), none for the other
/// events.
pub open spec fn listed_pods_of(event: Event) -> Seq<PodRecord> {
    match event {
        Event::PodsListed { pods } => pod_views(pods@),
        Event::PodsRanked { pods, .. } => pod_views(pods@),
        _ => Seq::empty(),
    }
}

/// `line` is the command line for `command` on one of `pods`.
pub open spec fn names_one_of(command: Command, pods: Seq<PodRecord>, line: Seq<char>) -> bool {
    exists|k: int| 0 <= k < pods.len() && line == kub_command_line(command, #[trigger] pods[k].name)
}

/// `event` is what comes of performing `action`: listed pods after a
/// listing, ranked pods after a ranking, and, after the user is asked, the
/// line typed together with the very candidates that were offered.
pub open spec fn follows(action: Action, event: Event) -> bool {
    match action {
        Action::ListPods { .. } => event is PodsListed,
        Action::RankPods { .. } => event is PodsRanked,
        Action::AskChoice { candidates } => event matches Event::ChoiceEntered { candidates: c, .. }
            && pod_views(c@) == pod_views(candidates@),
        _ => false,
    }
}

/// Ranked pods come with one key per pod.
pub open spec fn keys_match(event: Event) -> bool {
    event matches Event::PodsRanked { pods, keys } ==> keys@.len() == pods@.len()
}

/// `steps` is a lookup for `command` as the caller drives it: it starts
/// with `Event::Start`, each action is the one `Manager::get_kub_command`
/// gives for the event, and each next event is what comes of performing
/// the action before.
pub open spec fn is_lookup_run(middle: Option<String>, command: Command, steps: Seq<(Event, Action)>) -> bool {
    &&& steps.len() > 0
    &&& steps[0].0 is Start
    &&& forall|i: int| 0 <= i < steps.len() ==> keys_match(#[trigger] steps[i].0) && next_action(
        middle,
        command,
        steps[i].0,
        steps[i].1,
    )
    &&& forall|i: int| 0 <= i < steps.len() - 1 ==> follows(#[trigger] steps[i].1, steps[i + 1].0)
}

/// Every one of `xs` is one of `ys`.
pub open spec fn all_among(xs: Seq<PodRecord>, ys: Seq<PodRecord>) -> bool {
    forall|k: int|
        #![trigger xs[k]]
        0 <= k < xs.len() ==> exists|m: int| #![trigger ys[m]] 0 <= m < ys.len() && xs[k] == ys[m]
}

/// Every exact match is one of the listed pods.
proof fn lemma_exact_matches_are_listed(pods: Seq<PodRecord>, query: Seq<char>)
    ensures
        all_among(exact_matches(pods, query), pods),
    decreases pods.len(),
{
    reveal(Seq::filter);
    if pods.len() > 0 {
        let d = pods.drop_last();
        lemma_exact_matches_are_listed(d, query);
        let c = exact_matches(pods, query);
        let cd = exact_matches(d, query);
        assert forall|k: int| #![trigger c[k]] 0 <= k < c.len() implies exists|m: int|
            #![trigger pods[m]] 0 <= m < pods.len() && c[k] == pods[m] by {
            if k < cd.len() {
                assert(c[k] == cd[k]);
                let m = choose|m: int| #![trigger d[m]] 0 <= m < d.len() && cd[k] == d[m];
                assert(pods[m] == d[m]);
            } else {
                assert(c[k] == pods[pods.len() - 1]);
            }
        }
    }
}

/// The candidates offered to choose from are some of the pods the event
/// lists, and there is at least one.
proof fn lemma_offered_are_listed(middle: Option<String>, command: Command, event: Event, action: Action)
    requires
        keys_match(event),
        next_action(middle, command, event, action),
        action is AskChoice,
    ensures
        action matches Action::AskChoice { candidates } && pod_views(candidates@).len() > 0
            && all_among(pod_views(candidates@), listed_pods_of(event)),
{
    broadcast use vstd::seq_lib::group_filter_ensures;

    let cv = pod_views(action->AskChoice_candidates@);
    match event {
        Event::PodsListed { pods } => {
            let q = query_for(middle, command);
            let pv = pod_views(pods@);
            assert(cv == exact_matches(pv, q));
            assert(listed_pods_of(event) == pv);
            assert(cv.len() > 1);
            lemma_exact_matches_are_listed(pv, q);
        },
        Event::PodsRanked { pods, keys } => {
            let pv = pod_views(pods@);
            crate::ranking::lemma_closest_shape(pv, keys@, cv);
            assert(listed_pods_of(event) == pv);
            assert(all_among(cv, pv));
        },
        _ => {},
    }
}

/// A choice that is on offer and not missing names candidates only, and
/// gives at least one line when there is a candidate.
proof fn lemma_chosen_lines_name_candidates(command: Command, candidates: Seq<PodRecord>, choice: Seq<char>)
    requires
        !picks_missing(choice, candidates.len()),
        chosen_lines(command, candidates, choice) is Some,
        candidates.len() > 0,
    ensures
        chosen_lines(command, candidates, choice) matches Some(ls) && ls.len() > 0 && forall|j: int|
            0 <= j < ls.len() ==> names_one_of(command, candidates, #[trigger] ls[j]),
{
    let ls = chosen_lines(command, candidates, choice)->0;
    if is_letter(choice, 'd') {
        assert forall|j: int| 0 <= j < ls.len() implies names_one_of(command, candidates, #[trigger] ls[j]) by {
            assert(ls[j] == kub_command_line(command, candidates[j].name));
        }
    } else {
        let i = picked_index(choice)->0;
        assert(0 <= i < candidates.len());
        assert forall|j: int| 0 <= j < ls.len() implies names_one_of(command, candidates, #[trigger] ls[j]) by {
            assert(ls[j] == kub_command_line(command, candidates[i].name));
        }
    }
}

/// A lookup that ends in running command lines runs at least one, and each
/// of them is the line for the command on a pod that a listing of the
/// lookup gave, provided the candidates handed back with the typed choice
/// are the ones that were offered.
pub proof fn lemma_lookup_runs_listed_pods(middle: Option<String>, command: Command, steps: Seq<(Event, Action)>)
    requires
        is_lookup_run(middle, command, steps),
        steps.last().1 is Run,
    ensures
        steps.last().1 matches Action::Run { commands } && commands@.len() > 0 && exists|i: int|
            #![trigger steps[i]]
            0 <= i < steps.len() && forall|j: int| 0 <= j < commands@.len() ==> names_one_of(
                command,
                listed_pods_of(steps[i].0),
                #[trigger] commands@[j]@,
            ),
{
    broadcast use vstd::seq_lib::group_filter_ensures;

    let n = steps.len() as int;
    let (e, a) = steps[n - 1];
    assert(keys_match(steps[n - 1].0) && next_action(middle, command, steps[n - 1].0, steps[n - 1].1));
    let commands = a->Run_commands;
    match e {
        Event::PodsListed { pods } => {
            let q = query_for(middle, command);
            let pv = pod_views(pods@);
            let c = exact_matches(pv, q);
            assert(c.len() == 1);
            assert(c.contains(c[0]));
            pv.lemma_filter_contains_rev(named_like(q), c[0]);
            let m = choose|m: int| 0 <= m < pv.len() && pv[m] == c[0];
            assert(string_views(commands@) == seq![kub_command_line(command, c[0].name)]);
            assert(commands@.len() == string_views(commands@).len());
            assert forall|j: int| 0 <= j < commands@.len() implies names_one_of(
                command,
                listed_pods_of(steps[n - 1].0),
                #[trigger] commands@[j]@,
            ) by {
                assert(commands@[j]@ == string_views(commands@)[j]);
                assert(listed_pods_of(steps[n - 1].0)[m] == c[0]);
            }
        },
        Event::ChoiceEntered { candidates, line } => {
            assert(n >= 2);
            assert(follows(steps[n - 2].1, steps[n - 2 + 1].0));
            let (pe, pa) = steps[n - 2];
            assert(keys_match(steps[n - 2].0) && next_action(middle, command, steps[n - 2].0, steps[n - 2].1));
            lemma_offered_are_listed(middle, command, pe, pa);
            let cv = pod_views(candidates@);
            assert(cv == pod_views(pa->AskChoice_candidates@));
            let ch = choice_of(line@);
            lemma_chosen_lines_name_candidates(command, cv, ch);
            let ls = chosen_lines(command, cv, ch)->0;
            assert(string_views(commands@) == ls);
            assert forall|j: int| 0 <= j < commands@.len() implies names_one_of(
                command,
                listed_pods_of(steps[n - 2].0),
                #[trigger] commands@[j]@,
            ) by {
                assert(commands@[j]@ == ls[j]);
                assert(names_one_of(command, cv, ls[j]));
                let k = choose|k: int| 0 <= k < cv.len() && ls[j] == kub_command_line(command, #[trigger] cv[k].name);
                assert(all_among(cv, listed_pods_of(pe)));
                let m = choose|m: int| 0 <= m < listed_pods_of(pe).len() && #[trigger] cv[k] == listed_pods_of(pe)[m];
                assert(ls[j] == kub_command_line(command, listed_pods_of(pe)[m].name));
            }
        },
        _ => {},
    }
}


/// Ranked pods, when there are any, are always offered: the next action is
/// to choose among the closest of them (at least one, at most
/// `MAX_CHOICES`), never to stop.
pub proof fn lemma_ranked_pods_offered(
    middle: Option<String>,
    command: Command,
    pods: Vec<PodInfo>,
    keys: Vec<u64>,
    action: Action,
)
    requires
        keys@.len() == pods@.len(),
        pods@.len() > 0,
        next_action(middle, command, Event::PodsRanked { pods, keys }, action),
    ensures
        action matches Action::AskChoice { candidates } && are_closest(
            pod_views(pods@),
            keys@,
            pod_views(candidates@),
        ) && 0 < candidates@.len() <= MAX_CHOICES,
{
    let cv = pod_views(action->AskChoice_candidates@);
    crate::ranking::lemma_closest_shape(pod_views(pods@), keys@, cv);
}

/// A lookup stops with nothing found only after ranking an empty list of
/// pods.
pub proof fn lemma_nothing_found_only_without_pods(middle: Option<String>, command: Command, event: Event)
    requires
        next_action(middle, command, event, Action::NothingFound),
    ensures
        event matches Event::PodsRanked { pods, .. } && pods@.len() == 0,
{
}

/// A line that is empty once trimmed stands for the lowercase form of the
/// empty text, whatever white space it held.
pub proof fn lemma_blank_line_choice(line: Seq<char>)
    requires
        trim(line).len() == 0,
    ensures
        choice_of(line) == lowercase_of(Seq::<char>::empty()),
{
    assert(trim(line) == Seq::<char>::empty());
}

/// The empty choice picks nothing: it is refused, and picks no missing
/// candidate, whatever the candidates.
pub proof fn lemma_empty_choice_refused(command: Command, candidates: Seq<PodRecord>)
    ensures
        chosen_lines(command, candidates, Seq::<char>::empty()) is None,
        !picks_missing(Seq::<char>::empty(), candidates.len()),
{
}

/// Within a lookup, a fuzzy search looks for the very name the first
/// listing looked for (the command's name with the middle name filled in).
pub proof fn lemma_run_queries_agree(middle: Option<String>, command: Command, steps: Seq<(Event, Action)>)
    requires
        is_lookup_run(middle, command, steps),
    ensures
        steps[0].1 is ListPods,
        forall|i: int|
            0 <= i < steps.len() ==> (#[trigger] steps[i].1 matches Action::RankPods { query }
                ==> query@ == steps[0].1->ListPods_query@),
        forall|i: int|
            0 <= i < steps.len() ==> (#[trigger] steps[i].1 matches Action::ListPods { query }
                ==> query@ == steps[0].1->ListPods_query@),
{
    assert(keys_match(steps[0].0) && next_action(middle, command, steps[0].0, steps[0].1));
    assert forall|i: int| 0 <= i < steps.len() implies (#[trigger] steps[i].1 matches Action::RankPods {
        query,
    } ==> query@ == steps[0].1->ListPods_query@) by {
        assert(keys_match(steps[i].0) && next_action(middle, command, steps[i].0, steps[i].1));
    }
    assert forall|i: int| 0 <= i < steps.len() implies (#[trigger] steps[i].1 matches Action::ListPods {
        query,
    } ==> query@ == steps[0].1->ListPods_query@) by {
        assert(keys_match(steps[i].0) && next_action(middle, command, steps[i].0, steps[i].1));
    }
}

} // verus!
