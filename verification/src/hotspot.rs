//! Hotspot detection for files with repeated regret from multiple culprits.
//!
//! A hotspot is a file path that appears in several signals from distinct
//! culprits. Every admitted signal contributes one event per listed path; the
//! contributions are modelled as a flat sequence of `(path, culprit, weight)`
//! triples, over which the statistics of a path are stated.

use vstd::prelude::*;
use crate::config_file::HotspotConfig;
use crate::text::{lemma_text_lt_order, str_lt, text_lt};

verus! {

/// A detected hotspot with aggregated statistics.
#[derive(Debug, Clone)]
pub struct Hotspot {
    /// File path that is the hotspot
    pub path: String,
    /// Total weighted score from all signals
    pub score: i64,
    /// Number of regret events involving this file
    pub events: usize,
    /// Number of distinct culprit commits
    pub culprits: usize,
}

/// Input signal for hotspot analysis.
#[derive(Debug, Clone)]
pub struct HotspotSignal {
    /// Culprit commit SHA
    pub culprit_sha: String,
    /// Signal weight
    pub weight: i64,
    /// Signal confidence, in basis points (10000 is 1.0)
    pub confidence_bp: u32,
    /// Files touched by the culprit commit
    pub file_paths: Vec<String>,
}

/// A surface (single file with highest score) as fallback when no hotspot.
#[derive(Debug, Clone)]
pub struct TopSurface {
    /// File path with the highest score
    pub path: String,
    /// Total weighted score
    pub score: i64,
    /// Number of regret events
    pub events: usize,
    /// Number of distinct culprits
    pub culprits: usize,
}

/// A signal passes the confidence threshold unless its confidence is below it.
pub open spec fn admitted(s: HotspotSignal, min_confidence_bp: u32) -> bool {
    s.confidence_bp >= min_confidence_bp
}

/// The events of one signal: one `(path, culprit, weight)` per listed path.
pub open spec fn signal_events(s: HotspotSignal) -> Seq<(Seq<char>, Seq<char>, int)> {
    Seq::new(s.file_paths@.len(), |k: int| (s.file_paths@[k]@, s.culprit_sha@, s.weight as int))
}

/// The events of all admitted signals, in order.
pub open spec fn path_events(sigs: Seq<HotspotSignal>, min_confidence_bp: u32) -> Seq<
    (Seq<char>, Seq<char>, int),
>
    decreases sigs.len(),
{
    if sigs.len() == 0 {
        Seq::empty()
    } else {
        let prev = path_events(sigs.drop_last(), min_confidence_bp);
        if admitted(sigs.last(), min_confidence_bp) {
            prev + signal_events(sigs.last())
        } else {
            prev
        }
    }
}

/// Number of events on a path.
pub open spec fn event_count(es: Seq<(Seq<char>, Seq<char>, int)>, p: Seq<char>) -> int
    decreases es.len(),
{
    if es.len() == 0 {
        0
    } else {
        event_count(es.drop_last(), p) + if es.last().0 == p {
            1int
        } else {
            0int
        }
    }
}

/// Sum of the weights of the events on a path.
pub open spec fn score_sum(es: Seq<(Seq<char>, Seq<char>, int)>, p: Seq<char>) -> int
    decreases es.len(),
{
    if es.len() == 0 {
        0
    } else {
        score_sum(es.drop_last(), p) + if es.last().0 == p {
            es.last().2
        } else {
            0int
        }
    }
}

/// The culprits of the events on a path.
pub open spec fn culprit_set(es: Seq<(Seq<char>, Seq<char>, int)>, p: Seq<char>) -> Set<
    Seq<char>,
>
    decreases es.len(),
{
    if es.len() == 0 {
        Set::empty()
    } else if es.last().0 == p {
        culprit_set(es.drop_last(), p).insert(es.last().1)
    } else {
        culprit_set(es.drop_last(), p)
    }
}

/// Sum of the absolute weights of all events: a bound on every score.
pub open spec fn weight_mass(es: Seq<(Seq<char>, Seq<char>, int)>) -> int
    decreases es.len(),
{
    if es.len() == 0 {
        0
    } else {
        weight_mass(es.drop_last()) + if es.last().2 >= 0 {
            es.last().2
        } else {
            -es.last().2
        }
    }
}

/// Whether a path meets the hotspot thresholds.
pub open spec fn meets_thresholds(
    es: Seq<(Seq<char>, Seq<char>, int)>,
    p: Seq<char>,
    min_events: int,
    min_culprits: int,
) -> bool {
    &&& event_count(es, p) >= 1
    &&& event_count(es, p) >= min_events
    &&& culprit_set(es, p).len() >= min_culprits
}

/// `p` ranks above `q`: a higher score, or the same score and a path that
/// sorts first.
pub open spec fn ranks_above(es: Seq<(Seq<char>, Seq<char>, int)>, p: Seq<char>, q: Seq<char>) -> bool {
    score_sum(es, p) > score_sum(es, q) || (score_sum(es, p) == score_sum(es, q) && text_lt(p, q))
}

/// The path chosen among those meeting the thresholds: it meets them, and
/// ranks above every other path that does.
pub open spec fn is_top_path(
    es: Seq<(Seq<char>, Seq<char>, int)>,
    p: Seq<char>,
    min_events: int,
    min_culprits: int,
) -> bool {
    &&& meets_thresholds(es, p, min_events, min_culprits)
    &&& forall|q: Seq<char>|
        #![trigger meets_thresholds(es, q, min_events, min_culprits)]
        meets_thresholds(es, q, min_events, min_culprits) && q != p ==> ranks_above(es, p, q)
}

/// The inputs on which the statistics fit the machine integers.
pub open spec fn hotspot_input_fits(sigs: Seq<HotspotSignal>, min_confidence_bp: u32) -> bool {
    &&& path_events(sigs, min_confidence_bp).len() <= usize::MAX
    &&& weight_mass(path_events(sigs, min_confidence_bp)) <= i64::MAX
}

proof fn lemma_mass_append(a: Seq<(Seq<char>, Seq<char>, int)>, b: Seq<(Seq<char>, Seq<char>, int)>)
    ensures
        weight_mass(a + b) == weight_mass(a) + weight_mass(b),
        weight_mass(b) >= 0,
    decreases b.len(),
{
    if b.len() > 0 {
        assert((a + b).drop_last() == a + b.drop_last());
        lemma_mass_append(a, b.drop_last());
    }
}

proof fn lemma_prefix_fits(sigs: Seq<HotspotSignal>, min_bp: u32, i: int)
    requires
        0 <= i <= sigs.len(),
    ensures
        path_events(sigs.take(i), min_bp).len() <= path_events(sigs, min_bp).len(),
        weight_mass(path_events(sigs.take(i), min_bp)) <= weight_mass(path_events(sigs, min_bp)),
    decreases sigs.len(),
{
    if i == sigs.len() {
        assert(sigs.take(i) == sigs);
    } else {
        assert(sigs.take(i) == sigs.drop_last().take(i));
        lemma_prefix_fits(sigs.drop_last(), min_bp, i);
        lemma_mass_append(path_events(sigs.drop_last(), min_bp), signal_events(sigs.last()));
    }
}

/// The events seen after `j` paths of signal `i`.
spec fn events_upto(sigs: Seq<HotspotSignal>, min_bp: u32, i: int, j: int) -> Seq<
    (Seq<char>, Seq<char>, int),
> {
    if admitted(sigs[i], min_bp) {
        path_events(sigs.take(i), min_bp) + signal_events(sigs[i]).take(j)
    } else {
        path_events(sigs.take(i), min_bp)
    }
}

proof fn lemma_upto_fits(sigs: Seq<HotspotSignal>, min_bp: u32, i: int, j: int)
    requires
        0 <= i < sigs.len(),
        0 <= j <= sigs[i].file_paths@.len(),
    ensures
        events_upto(sigs, min_bp, i, j).len() <= path_events(sigs, min_bp).len(),
        weight_mass(events_upto(sigs, min_bp, i, j)) <= weight_mass(path_events(sigs, min_bp)),
        path_events(sigs.take(i + 1), min_bp) == events_upto(
            sigs,
            min_bp,
            i,
            sigs[i].file_paths@.len() as int,
        ),
{
    let s = signal_events(sigs[i]);
    assert(sigs.take(i + 1).drop_last() == sigs.take(i));
    assert(s.take(s.len() as int) == s);
    lemma_prefix_fits(sigs, min_bp, i + 1);
    lemma_mass_append(path_events(sigs.take(i), min_bp), s.take(j));
    lemma_mass_append(path_events(sigs.take(i), min_bp), s);
    assert(s == s.take(j) + s.skip(j));
    lemma_mass_append(s.take(j), s.skip(j));
}

proof fn lemma_count_bounds(es: Seq<(Seq<char>, Seq<char>, int)>, p: Seq<char>)
    ensures
        0 <= event_count(es, p) <= es.len(),
        -weight_mass(es) <= score_sum(es, p) <= weight_mass(es),
        culprit_set(es, p).finite(),
        event_count(es, p) == 0 ==> score_sum(es, p) == 0 && culprit_set(es, p) == Set::<
            Seq<char>,
        >::empty(),
    decreases es.len(),
{
    if es.len() > 0 {
        lemma_count_bounds(es.drop_last(), p);
    }
}

/// Per-path statistics gathered while walking the events.
struct PathStats {
    path: String,
    events: usize,
    score: i64,
    culprits: Vec<String>,
}

spec fn culprit_views(v: Seq<String>) -> Seq<Seq<char>> {
    v.map_values(|s: String| s@)
}

/// The table holds exactly the paths of `es`, once each, with their statistics.
spec fn table_matches(tab: Seq<PathStats>, es: Seq<(Seq<char>, Seq<char>, int)>) -> bool {
    &&& forall|a: int, b: int|
        0 <= a < b < tab.len() ==> #[trigger] tab[a].path@ != #[trigger] tab[b].path@
    &&& forall|t: int|
        0 <= t < tab.len() ==> {
            let st = #[trigger] tab[t];
            &&& st.events == event_count(es, st.path@)
            &&& st.score == score_sum(es, st.path@)
            &&& culprit_views(st.culprits@).no_duplicates()
            &&& culprit_views(st.culprits@).to_set() == culprit_set(es, st.path@)
            &&& st.events >= 1
        }
    &&& forall|p: Seq<char>|
        #![trigger event_count(es, p)]
        event_count(es, p) >= 1 ==> exists|t: int| 0 <= t < tab.len() && tab[t].path@ == p
}

/// Index of the entry for `path`, if the table has one.
fn find_path(tab: &Vec<PathStats>, path: &String) -> (r: Option<usize>)
    ensures
        match r {
            Some(t) => t < tab@.len() && tab@[t as int].path@ == path@,
            None => forall|t: int| 0 <= t < tab@.len() ==> tab@[t].path@ != path@,
        },
{
    let mut t: usize = 0;
    while t < tab.len()
        invariant
            t <= tab@.len(),
            forall|u: int| 0 <= u < t ==> tab@[u].path@ != path@,
        decreases tab.len() - t,
    {
        if tab[t].path == *path {
            return Some(t);
        }
        t = t + 1;
    }
    None
}

/// Whether `who` is among `v`.
fn contains_string(v: &Vec<String>, who: &String) -> (r: bool)
    ensures
        r == culprit_views(v@).contains(who@),
{
    let mut k: usize = 0;
    while k < v.len()
        invariant
            k <= v@.len(),
            forall|u: int| 0 <= u < k ==> v@[u]@ != who@,
        decreases v.len() - k,
    {
        if v[k] == *who {
            assert(culprit_views(v@)[k as int] == who@);
            return true;
        }
        k = k + 1;
    }
    assert(!culprit_views(v@).contains(who@)) by {
        if culprit_views(v@).contains(who@) {
            let u = choose|u: int| 0 <= u < culprit_views(v@).len() && culprit_views(v@)[u] == who@;
            assert(v@[u]@ == who@);
        }
    }
    false
}

/// Adds one event to the table.
fn record_event(
    tab: &mut Vec<PathStats>,
    Ghost(es): Ghost<Seq<(Seq<char>, Seq<char>, int)>>,
    path: &String,
    culprit: &String,
    weight: i64,
)
    requires
        table_matches(old(tab)@, es),
        es.len() + 1 <= usize::MAX,
        weight_mass(es.push((path@, culprit@, weight as int))) <= i64::MAX,
    ensures
        table_matches(final(tab)@, es.push((path@, culprit@, weight as int))),
{
    let ghost e = (path@, culprit@, weight as int);
    let ghost es2 = es.push(e);
    assert(es2.drop_last() == es);
    proof {
        lemma_count_bounds(es, path@);
        lemma_count_bounds(es2, path@);
    }
    match find_path(tab, path) {
        Some(t) => {
            let known = contains_string(&tab[t].culprits, culprit);
            let ghost before = tab@;
            let ev = tab[t].events + 1;
            let sc = tab[t].score + weight;
            tab[t].events = ev;
            tab[t].score = sc;
            if !known {
                let c = culprit.clone();
                tab[t].culprits.push(c);
            }
            proof {
                let nv = culprit_views(tab@[t as int].culprits@);
                let ov = culprit_views(before[t as int].culprits@);
                if known {
                    assert(nv == ov);
                    assert(ov.to_set().insert(culprit@) == ov.to_set());
                } else {
                    assert(nv == ov.push(culprit@));
                    assert(nv.to_set() == ov.to_set().insert(culprit@)) by {
                        assert forall|x: Seq<char>|
                            nv.to_set().contains(x) <==> ov.to_set().insert(culprit@).contains(x) by {
                            if nv.contains(x) {
                                let u = choose|u: int| 0 <= u < nv.len() && nv[u] == x;
                                if u < ov.len() {
                                    assert(ov[u] == x);
                                }
                            }
                            if ov.contains(x) {
                                let u = choose|u: int| 0 <= u < ov.len() && ov[u] == x;
                                assert(nv[u] == x);
                            }
                            if x == culprit@ {
                                assert(nv[ov.len() as int] == x);
                            }
                        }
                    }
                    assert(nv.no_duplicates()) by {
                        assert forall|a: int, b: int|
                            0 <= a < nv.len() && 0 <= b < nv.len() && a != b implies nv[a] != nv[b] by {
                            if a < ov.len() && b < ov.len() {
                            } else if a == ov.len() {
                                assert(ov[b] == nv[b]);
                                assert(ov.contains(nv[b]));
                            } else {
                                assert(ov[a] == nv[a]);
                                assert(ov.contains(nv[a]));
                            }
                        }
                    }
                }
                assert forall|u: int| 0 <= u < tab@.len() && u != t implies tab@[u] == before[u] by {}
                assert forall|p: Seq<char>| #![trigger event_count(es2, p)]
                    event_count(es2, p) >= 1 implies exists|u: int|
                        0 <= u < tab@.len() && tab@[u].path@ == p by {
                    if p == path@ {
                        assert(tab@[t as int].path@ == p);
                    } else {
                        assert(event_count(es, p) >= 1);
                        let u = choose|u: int| 0 <= u < before.len() && before[u].path@ == p;
                        assert(tab@[u].path@ == p);
                    }
                }
            }
        },
        None => {
            let mut cs: Vec<String> = Vec::new();
            cs.push(culprit.clone());
            let st = PathStats { path: path.clone(), events: 1, score: weight, culprits: cs };
            let ghost before = tab@;
            tab.push(st);
            proof {
                assert(event_count(es, path@) == 0) by {
                    if event_count(es, path@) >= 1 {
                        let u = choose|u: int| 0 <= u < before.len() && before[u].path@ == path@;
                    }
                }
                let nv = culprit_views(cs@);
                assert(nv == seq![culprit@]);
                assert(nv.to_set() == Set::<Seq<char>>::empty().insert(culprit@)) by {
                    assert forall|x: Seq<char>| nv.to_set().contains(x) <==> x == culprit@ by {
                        if x == culprit@ {
                            assert(nv[0] == x);
                        }
                    }
                }
                assert forall|p: Seq<char>| #![trigger event_count(es2, p)]
                    event_count(es2, p) >= 1 implies exists|u: int|
                        0 <= u < tab@.len() && tab@[u].path@ == p by {
                    if p == path@ {
                        assert(tab@[before.len() as int].path@ == p);
                    } else {
                        assert(event_count(es, p) >= 1);
                        let u = choose|u: int| 0 <= u < before.len() && before[u].path@ == p;
                        assert(tab@[u].path@ == p);
                    }
                }
            }
        },
    }
}

/// Gathers the statistics of every path of the admitted signals.
fn build_path_table(signals: &[HotspotSignal], min_confidence_bp: u32) -> (tab: Vec<PathStats>)
    requires
        hotspot_input_fits(signals@, min_confidence_bp),
    ensures
        table_matches(tab@, path_events(signals@, min_confidence_bp)),
{
    let mut tab: Vec<PathStats> = Vec::new();
    let mut i: usize = 0;
    assert(signals@.take(0) == Seq::<HotspotSignal>::empty());
    while i < signals.len()
        invariant
            i <= signals@.len(),
            hotspot_input_fits(signals@, min_confidence_bp),
            table_matches(tab@, path_events(signals@.take(i as int), min_confidence_bp)),
        decreases signals.len() - i,
    {
        let s = &signals[i];
        if s.confidence_bp >= min_confidence_bp {
            let mut j: usize = 0;
            assert(signal_events(*s).take(0) == Seq::<(Seq<char>, Seq<char>, int)>::empty());
            assert(events_upto(signals@, min_confidence_bp, i as int, 0) == path_events(
                signals@.take(i as int),
                min_confidence_bp,
            ));
            while j < s.file_paths.len()
                invariant
                    i < signals@.len(),
                    *s == signals@[i as int],
                    admitted(*s, min_confidence_bp),
                    j <= s.file_paths@.len(),
                    hotspot_input_fits(signals@, min_confidence_bp),
                    table_matches(tab@, events_upto(signals@, min_confidence_bp, i as int, j as int)),
                decreases s.file_paths.len() - j,
            {
                let ghost es = events_upto(signals@, min_confidence_bp, i as int, j as int);
                proof {
                    lemma_upto_fits(signals@, min_confidence_bp, i as int, j as int + 1);
                    let sev = signal_events(*s);
                    assert(sev.take(j as int + 1) == sev.take(j as int).push(sev[j as int]));
                    assert(events_upto(signals@, min_confidence_bp, i as int, j as int + 1)
                        == es.push((s.file_paths@[j as int]@, s.culprit_sha@, s.weight as int)));
                }
                record_event(&mut tab, Ghost(es), &s.file_paths[j], &s.culprit_sha, s.weight);
                j = j + 1;
            }
        }
        proof {
            lemma_upto_fits(signals@, min_confidence_bp, i as int, signals@[i as int].file_paths@.len() as int);
        }
        i = i + 1;
    }
    assert(signals@.take(signals@.len() as int) == signals@);
    tab
}

proof fn lemma_ranks_trans(
    es: Seq<(Seq<char>, Seq<char>, int)>,
    a: Seq<char>,
    b: Seq<char>,
    c: Seq<char>,
)
    requires
        ranks_above(es, a, b),
        ranks_above(es, b, c),
    ensures
        ranks_above(es, a, c),
{
    lemma_text_lt_order(a, b, c);
}

proof fn lemma_culprit_len(st: PathStats)
    requires
        culprit_views(st.culprits@).no_duplicates(),
    ensures
        st.culprits@.len() == culprit_views(st.culprits@).to_set().len(),
{
    culprit_views(st.culprits@).unique_seq_to_set();
}

/// Index of the entry that ranks first among those meeting the thresholds.
fn select_top(
    tab: &Vec<PathStats>,
    Ghost(es): Ghost<Seq<(Seq<char>, Seq<char>, int)>>,
    min_events: u32,
    min_culprits: u32,
) -> (r: Option<usize>)
    requires
        table_matches(tab@, es),
    ensures
        match r {
            Some(t) => t < tab@.len() && is_top_path(
                es,
                tab@[t as int].path@,
                min_events as int,
                min_culprits as int,
            ),
            None => forall|p: Seq<char>| !meets_thresholds(es, p, min_events as int, min_culprits as int),
        },
{
    let mut best: Option<usize> = None;
    let mut k: usize = 0;
    while k < tab.len()
        invariant
            k <= tab@.len(),
            table_matches(tab@, es),
            match best {
                None => forall|u: int|
                    0 <= u < k ==> !meets_thresholds(
                        es,
                        #[trigger] tab@[u].path@,
                        min_events as int,
                        min_culprits as int,
                    ),
                Some(b) => {
                    &&& b < k
                    &&& meets_thresholds(es, tab@[b as int].path@, min_events as int, min_culprits as int)
                    &&& forall|u: int|
                        0 <= u < k && u != b && meets_thresholds(
                            es,
                            #[trigger] tab@[u].path@,
                            min_events as int,
                            min_culprits as int,
                        ) ==> ranks_above(es, tab@[b as int].path@, tab@[u].path@)
                },
            },
        decreases tab.len() - k,
    {
        let st = &tab[k];
        proof {
            lemma_culprit_len(*st);
        }
        let qualifies = st.events >= min_events as usize && st.culprits.len() >= min_culprits as usize;
        assert(qualifies == meets_thresholds(es, st.path@, min_events as int, min_culprits as int));
        if qualifies {
            match best {
                None => {
                    best = Some(k);
                },
                Some(b) => {
                    let wins = st.score > tab[b].score || (st.score == tab[b].score && str_lt(
                        st.path.as_str(),
                        tab[b].path.as_str(),
                    ));
                    if wins {
                        proof {
                            assert forall|u: int|
                                0 <= u < k + 1 && u != k && meets_thresholds(
                                    es,
                                    #[trigger] tab@[u].path@,
                                    min_events as int,
                                    min_culprits as int,
                                ) implies ranks_above(es, tab@[k as int].path@, tab@[u].path@) by {
                                if u != b {
                                    lemma_ranks_trans(es, tab@[k as int].path@, tab@[b as int].path@, tab@[u].path@);
                                }
                            }
                        }
                        best = Some(k);
                    } else {
                        proof {
                            lemma_text_lt_order(st.path@, tab@[b as int].path@, st.path@);
                        }
                    }
                },
            }
        }
        k = k + 1;
    }
    proof {
        match best {
            None => {
                assert forall|p: Seq<char>| !meets_thresholds(es, p, min_events as int, min_culprits as int) by {
                    if meets_thresholds(es, p, min_events as int, min_culprits as int) {
                        assert(event_count(es, p) >= 1);
                        let u = choose|u: int| 0 <= u < tab@.len() && tab@[u].path@ == p;
                    }
                }
            },
            Some(b) => {
                assert forall|q: Seq<char>|
                    #![trigger meets_thresholds(es, q, min_events as int, min_culprits as int)]
                    meets_thresholds(es, q, min_events as int, min_culprits as int) && q
                        != tab@[b as int].path@ implies ranks_above(es, tab@[b as int].path@, q) by {
                    assert(event_count(es, q) >= 1);
                    let u = choose|u: int| 0 <= u < tab@.len() && tab@[u].path@ == q;
                }
            },
        }
    }
    best
}

/// Detect the top hotspot from a collection of signals: among the paths that
/// meet the configured thresholds, the one with the highest score, ties going
/// to the path that sorts first.
///
/// Returns None if no file meets the hotspot thresholds.
pub fn detect_hotspot(signals: &[HotspotSignal], config: &HotspotConfig) -> (r: Option<Hotspot>)
    requires
        hotspot_input_fits(signals@, config.min_confidence_bp),
    ensures
        ({
            let es = path_events(signals@, config.min_confidence_bp);
            match r {
                None => forall|p: Seq<char>|
                    !meets_thresholds(es, p, config.min_events as int, config.min_culprits as int),
                Some(h) => {
                    &&& is_top_path(es, h.path@, config.min_events as int, config.min_culprits as int)
                    &&& h.score == score_sum(es, h.path@)
                    &&& h.events == event_count(es, h.path@)
                    &&& h.culprits == culprit_set(es, h.path@).len()
                },
            }
        }),
        r matches Some(h) ==> h.events >= 1 && h.events >= config.min_events && h.culprits
            >= config.min_culprits,
        r is None ==> forall|p: Seq<char>|
            !(#[trigger] event_count(path_events(signals@, config.min_confidence_bp), p) >= 1 && event_count(
                path_events(signals@, config.min_confidence_bp),
                p,
            ) >= config.min_events && culprit_set(path_events(signals@, config.min_confidence_bp), p).len()
                >= config.min_culprits),
{
    let tab = build_path_table(signals, config.min_confidence_bp);
    let ghost es = path_events(signals@, config.min_confidence_bp);
    match select_top(&tab, Ghost(es), config.min_events, config.min_culprits) {
        None => {
            proof {
                assert forall|p: Seq<char>|
                    !(#[trigger] event_count(es, p) >= 1 && event_count(es, p) >= config.min_events
                        && culprit_set(es, p).len() >= config.min_culprits) by {
                    lemma_no_path_meets_thresholds(es, p, config.min_events as int, config.min_culprits as int);
                }
            }
            None
        },
        Some(t) => {
            let st = &tab[t];
            proof {
                lemma_culprit_len(*st);
                lemma_top_path_meets_thresholds(es, st.path@, config.min_events as int, config.min_culprits as int);
            }
            Some(
                Hotspot {
                    path: st.path.clone(),
                    score: st.score,
                    events: st.events,
                    culprits: st.culprits.len(),
                },
            )
        },
    }
}

/// Find the top surface (highest score file, ties going to the path that
/// sorts first) when no hotspot meets thresholds.
///
/// Returns None if no admitted signal lists a file.
pub fn find_top_surface(signals: &[HotspotSignal], min_confidence_bp: u32) -> (r: Option<TopSurface>)
    requires
        hotspot_input_fits(signals@, min_confidence_bp),
    ensures
        ({
            let es = path_events(signals@, min_confidence_bp);
            match r {
                None => forall|p: Seq<char>| event_count(es, p) == 0,
                Some(s) => {
                    &&& is_top_path(es, s.path@, 0, 0)
                    &&& s.score == score_sum(es, s.path@)
                    &&& s.events == event_count(es, s.path@)
                    &&& s.culprits == culprit_set(es, s.path@).len()
                },
            }
        }),
{
    let tab = build_path_table(signals, min_confidence_bp);
    let ghost es = path_events(signals@, min_confidence_bp);
    match select_top(&tab, Ghost(es), 0, 0) {
        None => {
            proof {
                assert forall|p: Seq<char>| event_count(es, p) == 0 by {
                    lemma_count_bounds(es, p);
                    assert(!meets_thresholds(es, p, 0, 0));
                }
            }
            None
        },
        Some(t) => {
            let st = &tab[t];
            proof {
                lemma_culprit_len(*st);
            }
            Some(
                TopSurface {
                    path: st.path.clone(),
                    score: st.score,
                    events: st.events,
                    culprits: st.culprits.len(),
                },
            )
        },
    }
}

/// At most one path ranks first: the tie-break on the path makes the choice
/// of hotspot and of top surface deterministic.
pub proof fn lemma_top_path_unique(
    es: Seq<(Seq<char>, Seq<char>, int)>,
    p: Seq<char>,
    q: Seq<char>,
    min_events: int,
    min_culprits: int,
)
    requires
        is_top_path(es, p, min_events, min_culprits),
        is_top_path(es, q, min_events, min_culprits),
    ensures
        p == q,
{
    if p != q {
        assert(meets_thresholds(es, q, min_events, min_culprits));
        assert(meets_thresholds(es, p, min_events, min_culprits));
        lemma_text_lt_order(p, q, p);
    }
}

/// A path never has more distinct culprits than events, and a path with an
/// event has a culprit.
pub proof fn lemma_culprits_within_events(es: Seq<(Seq<char>, Seq<char>, int)>, p: Seq<char>)
    ensures
        culprit_set(es, p).len() <= event_count(es, p),
        event_count(es, p) >= 1 ==> culprit_set(es, p).len() >= 1,
    decreases es.len(),
{
    lemma_count_bounds(es, p);
    if es.len() > 0 {
        lemma_culprits_within_events(es.drop_last(), p);
        lemma_count_bounds(es.drop_last(), p);
        if es.last().0 == p {
            let prev = culprit_set(es.drop_last(), p);
            if prev.contains(es.last().1) {
                assert(prev.insert(es.last().1) == prev);
            }
        }
    }
}

/// With thresholds of one event and one culprit the hotspot is the top
/// surface: the same paths qualify, so the same path ranks first.
pub proof fn lemma_surface_is_lowest_threshold_hotspot(
    es: Seq<(Seq<char>, Seq<char>, int)>,
    p: Seq<char>,
)
    ensures
        is_top_path(es, p, 1, 1) == is_top_path(es, p, 0, 0),
{
    assert forall|q: Seq<char>| meets_thresholds(es, q, 1, 1) == meets_thresholds(es, q, 0, 0) by {
        lemma_culprits_within_events(es, q);
    }
    lemma_culprits_within_events(es, p);
}


/// A hotspot meets both thresholds: the chosen path has at least one event,
/// at least `min_events` events and at least `min_culprits` distinct
/// culprits.
pub proof fn lemma_top_path_meets_thresholds(
    es: Seq<(Seq<char>, Seq<char>, int)>,
    p: Seq<char>,
    min_events: int,
    min_culprits: int,
)
    requires
        is_top_path(es, p, min_events, min_culprits),
    ensures
        event_count(es, p) >= 1,
        event_count(es, p) >= min_events,
        culprit_set(es, p).len() >= min_culprits,
{
}

/// No hotspot is found only when no path has at least one event, at least
/// `min_events` events and at least `min_culprits` distinct culprits.
pub proof fn lemma_no_path_meets_thresholds(
    es: Seq<(Seq<char>, Seq<char>, int)>,
    p: Seq<char>,
    min_events: int,
    min_culprits: int,
)
    requires
        !meets_thresholds(es, p, min_events, min_culprits),
    ensures
        !(event_count(es, p) >= 1 && event_count(es, p) >= min_events && culprit_set(es, p).len()
            >= min_culprits),
{
}

} // verus!
