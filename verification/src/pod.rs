//! One pod as `kubectl get po -owide` lists it: parsing a listing line into
//! its nine columns and printing them back tab-separated.

use vstd::prelude::*;
use crate::text::{fields, lines, trim, is_word, tab_join, split_fields, split_lines, trimmed, push_char};
use crate::text::{join_lines, lemma_fields_tab_join, lemma_tab_join_shape, lemma_lines_join, lemma_join_lines_ends, lemma_trim_unchanged};

verus! {

/// The columns of one line of `kubectl get po -owide`.
pub struct PodInfo {
    name: String,
    ready: String,
    status: String,
    restarts: String,
    age: String,
    ip: String,
    node: String,
    nominated_node: String,
    readiness_gates: String,
}

/// The nine column texts of a pod, in listing order.
pub struct PodRecord {
    pub name: Seq<char>,
    pub ready: Seq<char>,
    pub status: Seq<char>,
    pub restarts: Seq<char>,
    pub age: Seq<char>,
    pub ip: Seq<char>,
    pub node: Seq<char>,
    pub nominated_node: Seq<char>,
    pub readiness_gates: Seq<char>,
}

impl View for PodInfo {
    type V = PodRecord;

    closed spec fn view(&self) -> PodRecord {
        PodRecord {
            name: self.name@,
            ready: self.ready@,
            status: self.status@,
            restarts: self.restarts@,
            age: self.age@,
            ip: self.ip@,
            node: self.node@,
            nominated_node: self.nominated_node@,
            readiness_gates: self.readiness_gates@,
        }
    }
}

/// The record whose columns are the first nine texts of `cols`.
pub open spec fn record_of(cols: Seq<Seq<char>>) -> PodRecord {
    PodRecord {
        name: cols[0],
        ready: cols[1],
        status: cols[2],
        restarts: cols[3],
        age: cols[4],
        ip: cols[5],
        node: cols[6],
        nominated_node: cols[7],
        readiness_gates: cols[8],
    }
}

/// The columns of a record, in listing order.
pub open spec fn columns_of(r: PodRecord) -> Seq<Seq<char>> {
    seq![r.name, r.ready, r.status, r.restarts, r.age, r.ip, r.node, r.nominated_node, r.readiness_gates]
}

/// The columns of a pod joined by tabs, as the pod is shown to the user.
pub open spec fn pod_line(r: PodRecord) -> Seq<char> {
    tab_join(columns_of(r))
}

/// A copy of `s` (its characters, in a new string).
fn copy_string(s: &String) -> (res: String)
    ensures
        res@ == s@,
{
    String::from_str(s.as_str())
}

impl PodInfo {
    /// The pod with the nine given columns.
    pub fn from_fields(t: (&str, &str, &str, &str, &str, &str, &str, &str, &str)) -> (res: PodInfo)
        ensures
            res@ == record_of(seq![t.0@, t.1@, t.2@, t.3@, t.4@, t.5@, t.6@, t.7@, t.8@]),
    {
        PodInfo {
            name: String::from_str(t.0),
            ready: String::from_str(t.1),
            status: String::from_str(t.2),
            restarts: String::from_str(t.3),
            age: String::from_str(t.4),
            ip: String::from_str(t.5),
            node: String::from_str(t.6),
            nominated_node: String::from_str(t.7),
            readiness_gates: String::from_str(t.8),
        }
    }

    /// The name of the pod.
    pub fn name(&self) -> (res: &String)
        ensures
            res@ == self@.name,
    {
        &self.name
    }

    /// A copy of the pod.
    pub fn copy(&self) -> (res: PodInfo)
        ensures
            res@ == self@,
    {
        PodInfo {
            name: copy_string(&self.name),
            ready: copy_string(&self.ready),
            status: copy_string(&self.status),
            restarts: copy_string(&self.restarts),
            age: copy_string(&self.age),
            ip: copy_string(&self.ip),
            node: copy_string(&self.node),
            nominated_node: copy_string(&self.nominated_node),
            readiness_gates: copy_string(&self.readiness_gates),
        }
    }

    /// The columns joined by tabs.
    pub fn to_string(&self) -> (res: String)
        ensures
            res@ == pod_line(self@),
    {
        let mut s = copy_string(&self.name);
        push_char(&mut s, '\t');
        s.append(self.ready.as_str());
        push_char(&mut s, '\t');
        s.append(self.status.as_str());
        push_char(&mut s, '\t');
        s.append(self.restarts.as_str());
        push_char(&mut s, '\t');
        s.append(self.age.as_str());
        push_char(&mut s, '\t');
        s.append(self.ip.as_str());
        push_char(&mut s, '\t');
        s.append(self.node.as_str());
        push_char(&mut s, '\t');
        s.append(self.nominated_node.as_str());
        push_char(&mut s, '\t');
        s.append(self.readiness_gates.as_str());
        proof {
            let c = columns_of(self@);
            reveal_with_fuel(tab_join, 10);
            assert(c.take(1) == seq![c[0]]);
            assert forall|k: int| 1 <= k < 9 implies #[trigger] c.take(k + 1).drop_last() == c.take(k) by {}
            assert(tab_join(c.take(1)) == c[0]);
            assert(tab_join(c.take(2)) == tab_join(c.take(1)) + seq!['\t'] + c[1]);
            assert(tab_join(c.take(3)) == tab_join(c.take(2)) + seq!['\t'] + c[2]);
            assert(tab_join(c.take(4)) == tab_join(c.take(3)) + seq!['\t'] + c[3]);
            assert(tab_join(c.take(5)) == tab_join(c.take(4)) + seq!['\t'] + c[4]);
            assert(tab_join(c.take(6)) == tab_join(c.take(5)) + seq!['\t'] + c[5]);
            assert(tab_join(c.take(7)) == tab_join(c.take(6)) + seq!['\t'] + c[6]);
            assert(tab_join(c.take(8)) == tab_join(c.take(7)) + seq!['\t'] + c[7]);
            assert(tab_join(c.take(9)) == tab_join(c.take(8)) + seq!['\t'] + c[8]);
            assert(c.take(9) == c);
        }
        s
    }
}


/// Turns one listing line into a pod; the line holds exactly nine
/// white-space separated columns.
pub fn convert_to_kub_info(s: &str) -> (res: PodInfo)
    requires
        fields(s@).len() == 9,
    ensures
        res@ == record_of(fields(s@)),
{
    let cols = split_fields(s);
    assert(cols@.len() == 9);
    let ghost v = cols@.map_values(|f: String| f@);
    let pod_info = PodInfo::from_fields(
        (
            cols[0].as_str(),
            cols[1].as_str(),
            cols[2].as_str(),
            cols[3].as_str(),
            cols[4].as_str(),
            cols[5].as_str(),
            cols[6].as_str(),
            cols[7].as_str(),
            cols[8].as_str(),
        ),
    );
    assert(seq![v[0], v[1], v[2], v[3], v[4], v[5], v[6], v[7], v[8]] == v);
    pod_info
}

/// Every line of the trimmed listing holds exactly nine columns.
pub open spec fn is_pod_listing(output: Seq<char>) -> bool {
    forall|i: int| 0 <= i < lines(trim(output)).len() ==> fields(#[trigger] lines(trim(output))[i]).len() == 9
}

/// The pods of a listing: one per line of the trimmed listing.
pub open spec fn listed_pods(output: Seq<char>) -> Seq<PodRecord> {
    lines(trim(output)).map_values(|l: Seq<char>| record_of(fields(l)))
}

/// Tests whether every line of the trimmed listing holds exactly nine
/// columns (an empty listing is one empty line, so it fails).
pub fn check_pod_listing(output: &str) -> (res: bool)
    ensures
        res == is_pod_listing(output@),
{
    let t = trimmed(output);
    let ls = split_lines(t.as_str());
    let ghost lv = ls@.map_values(|l: String| l@);
    let mut i: usize = 0;
    while i < ls.len()
        invariant
            i <= ls@.len(),
            lv == ls@.map_values(|l: String| l@),
            lv == lines(trim(output@)),
            forall|k: int| 0 <= k < i ==> fields(#[trigger] lv[k]).len() == 9,
        decreases ls@.len() - i,
    {
        let cols = split_fields(ls[i].as_str());
        if cols.len() != 9 {
            assert(fields(lv[i as int]).len() != 9);
            return false;
        }
        i += 1;
    }
    true
}

/// Parses the output of the pod listing command into pods, one per line of
/// the trimmed output; every line holds exactly nine columns.
pub fn parse_pod_list(output: &str) -> (res: Vec<PodInfo>)
    requires
        is_pod_listing(output@),
    ensures
        res@.map_values(|p: PodInfo| p@) == listed_pods(output@),
{
    let t = trimmed(output);
    let ls = split_lines(t.as_str());
    let ghost lv = ls@.map_values(|l: String| l@);
    let mut pods: Vec<PodInfo> = Vec::new();
    let mut i: usize = 0;
    while i < ls.len()
        invariant
            i <= ls@.len(),
            lv == ls@.map_values(|l: String| l@),
            lv == lines(trim(output@)),
            is_pod_listing(output@),
            pods@.len() == i,
            forall|k: int| 0 <= k < i ==> (#[trigger] pods@[k])@ == record_of(fields(lv[k])),
        decreases ls@.len() - i,
    {
        assert(fields(lv[i as int]).len() == 9);
        pods.push(convert_to_kub_info(ls[i].as_str()));
        i += 1;
    }
    assert(pods@.map_values(|p: PodInfo| p@) == listed_pods(output@));
    pods
}

/// A pod whose columns are all non-empty and free of white space: such a
/// pod reads back from its own line.
pub open spec fn has_word_columns(r: PodRecord) -> bool {
    forall|i: int| 0 <= i < 9 ==> is_word(#[trigger] columns_of(r)[i])
}

/// A pod shown as its tab-separated line parses back to the same pod, when
/// every column is a non-empty text without white space.
pub proof fn lemma_line_parses_back(r: PodRecord)
    requires
        has_word_columns(r),
    ensures
        fields(pod_line(r)).len() == 9,
        record_of(fields(pod_line(r))) == r,
{
    let c = columns_of(r);
    assert forall|i: int| 0 <= i < c.len() implies is_word(#[trigger] c[i]) by {
        assert(is_word(columns_of(r)[i]));
    }
    lemma_fields_tab_join(c);
}


/// The listing that shows `records` one per line, columns tab-separated.
pub open spec fn listing_of(records: Seq<PodRecord>) -> Seq<char> {
    join_lines(records.map_values(|r: PodRecord| pod_line(r)))
}

/// A listing of any number (at least one) of pods whose columns are words
/// is accepted, and reads back as the same pods in the same order.
pub proof fn lemma_listing_parses_back(records: Seq<PodRecord>)
    requires
        records.len() > 0,
        forall|i: int| 0 <= i < records.len() ==> has_word_columns(#[trigger] records[i]),
    ensures
        is_pod_listing(listing_of(records)),
        listed_pods(listing_of(records)) == records,
{
    let ls = records.map_values(|r: PodRecord| pod_line(r));
    let out = listing_of(records);
    assert forall|i: int| 0 <= i < ls.len() implies !(#[trigger] ls[i]).contains('\n') && ls[i].len() > 0
        && !crate::text::white_space(ls[i][0]) && !crate::text::white_space(ls[i].last()) by {
        let c = columns_of(records[i]);
        assert(has_word_columns(records[i]));
        assert forall|k: int| 0 <= k < c.len() implies is_word(#[trigger] c[k]) by {
            assert(is_word(columns_of(records[i])[k]));
        }
        lemma_tab_join_shape(c);
    }
    lemma_lines_join(ls);
    lemma_join_lines_ends(ls);
    assert(ls[0].len() > 0);
    assert(!crate::text::white_space(out[0]));
    assert(!crate::text::white_space(ls[ls.len() - 1].last()));
    lemma_trim_unchanged(out);
    assert(lines(trim(out)) == ls);
    assert forall|i: int| 0 <= i < ls.len() implies fields(#[trigger] ls[i]).len() == 9
        && record_of(fields(ls[i])) == records[i] by {
        lemma_line_parses_back(records[i]);
    }
    assert(listed_pods(out) == records);
}

} // verus!
