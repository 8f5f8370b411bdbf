//! The LongMemEval memory benchmark: how sessions become atoms, how the
//! evidence that a search retrieves is ranked, and how the benchmark waits
//! for an atom's pipeline.

use vstd::prelude::*;
use crate::chunking::strings_view;
use crate::markdown::{trim, trim_str};
use crate::provider_error::{decimal, push_decimal};
use crate::text::{chars_of, push_char, push_str, string_from_chars};

verus! {

/// One turn of a benchmark conversation session.
#[derive(Debug)]
pub struct LongMemEvalTurn {
    pub role: String,
    pub content: String,
    pub has_answer: Option<bool>,
}

/// One benchmark question with the sessions of its haystack. (The expected
/// answer, free-form JSON, is not read by the benchmark's logic and is kept
/// where the data set is loaded.)
#[derive(Debug)]
pub struct LongMemEvalInstance {
    pub question_id: String,
    pub question_type: String,
    pub question: String,
    pub question_date: Option<String>,
    pub haystack_session_ids: Vec<String>,
    pub haystack_dates: Vec<String>,
    pub haystack_sessions: Vec<Vec<LongMemEvalTurn>>,
    pub answer_session_ids: Vec<String>,
}

/// Whether `s` ends with `p`.
pub open spec fn ends_with(s: Seq<char>, p: Seq<char>) -> bool {
    p.len() <= s.len() && s.subrange(s.len() - p.len(), s.len() as int) == p
}

impl LongMemEvalInstance {
    /// An abstention question (its id ends in `_abs`) has no answer in the
    /// haystack.
    pub fn is_abstention(&self) -> (r: bool)
        ensures
            r == ends_with(self.question_id@, "_abs"@),
    {
        let id = chars_of(self.question_id.as_str());
        let suffix = chars_of("_abs");
        if id.len() < suffix.len() {
            return false;
        }
        let off = id.len() - suffix.len();
        let mut i: usize = 0;
        while i < suffix.len()
            invariant
                id@ == self.question_id@,
                suffix@ == "_abs"@,
                off == id.len() - suffix.len(),
                i <= suffix.len(),
                forall|j: int| 0 <= j < i ==> id@[off + j] == suffix@[j],
            decreases suffix.len() - i,
        {
            if id[off + i] != suffix[i] {
                assert(id@.subrange(off as int, id.len() as int)[i as int] != suffix@[i as int]);
                return false;
            }
            i = i + 1;
        }
        assert(id@.subrange(off as int, id.len() as int) =~= suffix@);
        true
    }
}

/// A character kept in a path component: ASCII letters and digits, `-`
/// and `_`.
pub open spec fn path_safe(c: char) -> bool {
    ('a' <= c <= 'z') || ('A' <= c <= 'Z') || ('0' <= c <= '9') || c == '-' || c == '_'
}

/// A value made safe as a file name: every other character becomes `_`.
pub open spec fn sanitized(s: Seq<char>) -> Seq<char> {
    s.map_values(|c: char| if path_safe(c) {
        c
    } else {
        '_'
    })
}

/// Makes a value safe to use as a file name component.
pub fn sanitize_path_component(value: &str) -> (r: String)
    ensures
        r@ == sanitized(value@),
{
    let cs = chars_of(value);
    let mut out: Vec<char> = Vec::new();
    let mut i: usize = 0;
    while i < cs.len()
        invariant
            i <= cs.len(),
            out@ == sanitized(cs@.take(i as int)),
        decreases cs.len() - i,
    {
        let c = cs[i];
        let keep = ('a' <= c && c <= 'z') || ('A' <= c && c <= 'Z') || ('0' <= c && c <= '9')
            || c == '-' || c == '_';
        out.push(
            if keep {
                c
            } else {
                '_'
            },
        );
        i = i + 1;
        assert(out@ =~= sanitized(cs@.take(i as int)));
    }
    assert(cs@.take(i as int) =~= cs@);
    string_from_chars(out.as_slice())
}

/// Label of the session at `idx`: its id, or `session-{idx}` when the
/// instance lists no id for it.
pub fn session_label(ids: &Vec<String>, idx: usize) -> (r: String)
    ensures
        r@ == (if idx < ids.len() {
            ids@[idx as int]@
        } else {
            "session-"@ + decimal(idx as nat)
        }),
{
    if idx < ids.len() {
        ids[idx].clone()
    } else {
        let mut s = String::new();
        push_str(&mut s, "session-");
        push_decimal(&mut s, idx as u64);
        s
    }
}

/// Markdown of one turn: an evidence marker for turns that hold the answer,
/// then the role as a heading and the trimmed content.
pub open spec fn turn_text(t: LongMemEvalTurn) -> Seq<char> {
    let marker = if t.has_answer == Some(true) {
        "Evidence turn: true\n\n"@
    } else {
        Seq::empty()
    };
    marker + "## "@ + t.role@ + "\n\n"@ + trim(t.content@) + "\n\n"@
}

/// The markdown of a sequence of turns.
pub open spec fn turns_text(ts: Seq<LongMemEvalTurn>) -> Seq<char>
    decreases ts.len(),
{
    if ts.len() == 0 {
        Seq::empty()
    } else {
        turns_text(ts.drop_last()) + turn_text(ts.last())
    }
}

/// Heading of a session atom.
pub open spec fn session_header(
    question_id: Seq<char>,
    question_date: Option<Seq<char>>,
    session_id: Seq<char>,
    session_date: Option<Seq<char>>,
) -> Seq<char> {
    "# LongMemEval Session "@ + session_id + "\n\nQuestion ID: "@ + question_id
        + "\nQuestion date: "@ + (match question_date {
        Some(d) => d,
        None => "unknown"@,
    }) + "\nSession date: "@ + (match session_date {
        Some(d) => d,
        None => "unknown"@,
    }) + "\n\n"@
}

fn push_opt_or_unknown(s: &mut String, v: Option<&str>)
    ensures
        final(s)@ == old(s)@ + (match v {
            Some(d) => d@,
            None => "unknown"@,
        }),
{
    match v {
        Some(d) => push_str(s, d),
        None => push_str(s, "unknown"),
    }
}

/// The content of the atom that stores one haystack session.
pub fn render_session_atom(
    instance: &LongMemEvalInstance,
    session_id: &str,
    session_date: Option<&str>,
    turns: &[LongMemEvalTurn],
) -> (r: String)
    ensures
        r@ == session_header(
            instance.question_id@,
            match instance.question_date {
                Some(d) => Some(d@),
                None => None,
            },
            session_id@,
            match session_date {
                Some(d) => Some(d@),
                None => None,
            },
        ) + turns_text(turns@),
{
    let mut content = String::new();
    push_str(&mut content, "# LongMemEval Session ");
    push_str(&mut content, session_id);
    push_str(&mut content, "\n\nQuestion ID: ");
    push_str(&mut content, instance.question_id.as_str());
    push_str(&mut content, "\nQuestion date: ");
    let qd: Option<&str> = match &instance.question_date {
        Some(d) => Some(d.as_str()),
        None => None,
    };
    push_opt_or_unknown(&mut content, qd);
    push_str(&mut content, "\nSession date: ");
    push_opt_or_unknown(&mut content, session_date);
    push_str(&mut content, "\n\n");
    let ghost header = content@;
    let mut i: usize = 0;
    while i < turns.len()
        invariant
            i <= turns.len(),
            content@ == header + turns_text(turns@.take(i as int)),
        decreases turns.len() - i,
    {
        let turn = &turns[i];
        let ghost before = content@;
        let evidence = match turn.has_answer {
            Some(b) => b,
            None => false,
        };
        if evidence {
            push_str(&mut content, "Evidence turn: true\n\n");
        }
        push_str(&mut content, "## ");
        push_str(&mut content, turn.role.as_str());
        push_str(&mut content, "\n\n");
        let trimmed = trim_str(turn.content.as_str());
        push_str(&mut content, trimmed.as_str());
        push_str(&mut content, "\n\n");
        assert(content@ =~= before + turn_text(*turn));
        assert(turns@.take(i + 1).drop_last() =~= turns@.take(i as int));
        i = i + 1;
    }
    assert(turns@.take(i as int) =~= turns@);
    content
}

/// The source URL that records which question and session an atom holds.
pub open spec fn session_url(question_id: Seq<char>, session_id: Seq<char>) -> Seq<char> {
    "bench://longmemeval/"@ + question_id + "/"@ + session_id
}

/// The source URL of a session atom.
pub fn session_source_url(question_id: &str, session_id: &str) -> (r: String)
    ensures
        r@ == session_url(question_id@, session_id@),
{
    let mut r = String::new();
    push_str(&mut r, "bench://longmemeval/");
    push_str(&mut r, question_id);
    push_str(&mut r, "/");
    push_str(&mut r, session_id);
    r
}

/// File name of the database that holds one question's memory.
pub fn instance_db_file_name(question_id: &str) -> (r: String)
    ensures
        r@ == sanitized(question_id@) + ".db"@,
{
    let mut r = sanitize_path_component(question_id);
    push_str(&mut r, ".db");
    r
}

/// One haystack session as it is stored: its id, its date, the atom's
/// content and its source URL.
#[derive(Debug)]
pub struct SessionAtom {
    pub session_id: String,
    pub session_date: Option<String>,
    pub content: String,
    pub source_url: String,
}

/// The text of a stored session.
pub open spec fn session_atom_view(a: SessionAtom) -> (Seq<char>, Option<Seq<char>>, Seq<char>, Seq<char>) {
    (
        a.session_id@,
        match a.session_date {
            Some(d) => Some(d@),
            None => None,
        },
        a.content@,
        a.source_url@,
    )
}

/// Label of the session at `idx` (its id, or `session-{idx}`).
pub open spec fn label_at(ids: Seq<Seq<char>>, idx: nat) -> Seq<char> {
    if idx < ids.len() {
        ids[idx as int]
    } else {
        "session-"@ + decimal(idx)
    }
}

/// Date of the session at `idx`, where the instance lists one.
pub open spec fn date_at(dates: Seq<Seq<char>>, idx: nat) -> Option<Seq<char>> {
    if idx < dates.len() {
        Some(dates[idx as int])
    } else {
        None
    }
}

/// The text of an optional string.
pub open spec fn opt_text(o: Option<String>) -> Option<Seq<char>> {
    match o {
        Some(s) => Some(s@),
        None => None,
    }
}

/// The stored form of the first `n` haystack sessions of an instance, in
/// order; sessions without turns are skipped.
pub open spec fn planned_sessions(inst: LongMemEvalInstance, n: nat) -> Seq<
    (Seq<char>, Option<Seq<char>>, Seq<char>, Seq<char>),
>
    decreases n,
{
    if n == 0 {
        Seq::empty()
    } else {
        let idx = (n - 1) as nat;
        let prev = planned_sessions(inst, idx);
        let turns = inst.haystack_sessions@[idx as int]@;
        if turns.len() == 0 {
            prev
        } else {
            let id = label_at(strings_view(inst.haystack_session_ids@), idx);
            let date = date_at(strings_view(inst.haystack_dates@), idx);
            prev.push(
                (
                    id,
                    date,
                    session_header(inst.question_id@, opt_text(inst.question_date), id, date)
                        + turns_text(turns),
                    session_url(inst.question_id@, id),
                ),
            )
        }
    }
}

/// The sessions of an instance that are stored as atoms, each with the
/// content and source URL of its atom, in haystack order.
pub fn plan_session_atoms(instance: &LongMemEvalInstance) -> (r: Vec<SessionAtom>)
    ensures
        r@.map_values(|a: SessionAtom| session_atom_view(a)) == planned_sessions(
            *instance,
            instance.haystack_sessions@.len(),
        ),
{
    let mut r: Vec<SessionAtom> = Vec::new();
    let mut idx: usize = 0;
    assert(r@.map_values(|a: SessionAtom| session_atom_view(a)) =~= planned_sessions(*instance, 0));
    while idx < instance.haystack_sessions.len()
        invariant
            idx <= instance.haystack_sessions@.len(),
            r@.map_values(|a: SessionAtom| session_atom_view(a)) == planned_sessions(
                *instance,
                idx as nat,
            ),
        decreases instance.haystack_sessions@.len() - idx,
    {
        let turns = &instance.haystack_sessions[idx];
        if turns.len() > 0 {
            let ghost before = r@;
            let session_id = session_label(&instance.haystack_session_ids, idx);
            let session_date: Option<String> = if idx < instance.haystack_dates.len() {
                Some(instance.haystack_dates[idx].clone())
            } else {
                None
            };
            let date_ref: Option<&str> = match &session_date {
                Some(d) => Some(d.as_str()),
                None => None,
            };
            let content = render_session_atom(instance, session_id.as_str(), date_ref, turns.as_slice());
            let source_url = session_source_url(instance.question_id.as_str(), session_id.as_str());
            proof {
                let ids = strings_view(instance.haystack_session_ids@);
                let dates = strings_view(instance.haystack_dates@);
                assert(session_id@ == label_at(ids, idx as nat));
                assert(opt_text(session_date) == date_at(dates, idx as nat));
            }
            r.push(SessionAtom { session_id, session_date, content, source_url });
            assert(r@.map_values(|a: SessionAtom| session_atom_view(a)) =~= before.map_values(
                |a: SessionAtom| session_atom_view(a),
            ).push(session_atom_view(r@.last())));
        }
        idx = idx + 1;
    }
    r
}

/// Whether `x` occurs among the first `end` strings of `v`.
fn occurs_before(v: &Vec<String>, end: usize, x: &String) -> (r: bool)
    requires
        end <= v.len(),
    ensures
        r == strings_view(v@).take(end as int).contains(x@),
{
    let ghost sv = strings_view(v@).take(end as int);
    let mut i: usize = 0;
    while i < end
        invariant
            i <= end <= v.len(),
            sv == strings_view(v@).take(end as int),
            forall|j: int| 0 <= j < i ==> v@[j]@ != x@,
        decreases end - i,
    {
        if v[i] == *x {
            assert(sv[i as int] == x@);
            return true;
        }
        i = i + 1;
    }
    assert(!sv.contains(x@)) by {
        if sv.contains(x@) {
            let k = choose|k: int| 0 <= k < sv.len() && sv[k] == x@;
            assert(v@[k]@ == x@);
        }
    }
    false
}

/// Number of distinct evidence sessions (the size of the evidence set).
pub fn distinct_evidence_count(evidence: &Vec<String>) -> (n: usize)
    ensures
        n == strings_view(evidence@).to_set().len(),
{
    broadcast use vstd::seq_lib::seq_to_set_is_finite;
    let ghost ev = strings_view(evidence@);
    let mut n: usize = 0;
    let mut i: usize = 0;
    assert(ev.take(0).to_set() =~= Set::<Seq<char>>::empty());
    while i < evidence.len()
        invariant
            i <= evidence.len(),
            ev == strings_view(evidence@),
            n == ev.take(i as int).to_set().len(),
            n <= i,
        decreases evidence.len() - i,
    {
        let seen = occurs_before(evidence, i, &evidence[i]);
        let ghost x = ev[i as int];
        assert(ev.take(i + 1) =~= ev.take(i as int).push(x));
        proof {
            ev.take(i as int).lemma_push_to_set_commute(x);
        }
        if !seen {
            n = n + 1;
        }
        i = i + 1;
    }
    assert(ev.take(i as int) =~= ev);
    n
}

// ---------------------------------------------------------------------------
// The run as a whole
// ---------------------------------------------------------------------------

/// How many results a search asks for: the requested number, at least one.
pub fn effective_top_k(top_k: usize) -> (r: usize)
    ensures
        r == (if top_k >= 1 {
            top_k
        } else {
            1
        }),
{
    if top_k >= 1 {
        top_k
    } else {
        1
    }
}

/// How many of the data set's instances a run covers: all of them, or the
/// first `limit` of them.
pub fn instances_to_run(limit: Option<usize>, total: usize) -> (r: usize)
    ensures
        r == (match limit {
            Some(l) => if l < total {
                l
            } else {
                total
            },
            None => total,
        }),
        r <= total,
{
    match limit {
        Some(l) => if l < total {
            l
        } else {
            total
        },
        None => total,
    }
}

/// Number of abstention questions among `ids` (question ids).
pub open spec fn abstention_count(ids: Seq<Seq<char>>) -> nat
    decreases ids.len(),
{
    if ids.len() == 0 {
        0
    } else {
        abstention_count(ids.drop_last()) + if ends_with(ids.last(), "_abs"@) {
            1nat
        } else {
            0nat
        }
    }
}

/// The question ids of instances.
pub open spec fn question_ids(v: Seq<LongMemEvalInstance>) -> Seq<Seq<char>> {
    v.map_values(|i: LongMemEvalInstance| i.question_id@)
}

/// Questions with an answer and abstention questions among the instances
/// of a run: `(answerable, abstention)`. Every question is counted once.
pub fn abstention_split(instances: &[LongMemEvalInstance]) -> (r: (usize, usize))
    ensures
        r.1 == abstention_count(question_ids(instances@)),
        r.0 + r.1 == instances@.len(),
{
    let ghost ids = question_ids(instances@);
    let mut answerable: usize = 0;
    let mut abstention: usize = 0;
    let mut i: usize = 0;
    while i < instances.len()
        invariant
            i <= instances.len(),
            ids == question_ids(instances@),
            abstention == abstention_count(ids.take(i as int)),
            answerable + abstention == i,
        decreases instances.len() - i,
    {
        assert(ids.take(i + 1).drop_last() =~= ids.take(i as int));
        assert(ids.take(i + 1).last() == instances@[i as int].question_id@);
        if instances[i].is_abstention() {
            abstention = abstention + 1;
        } else {
            answerable = answerable + 1;
        }
        i = i + 1;
    }
    assert(ids.take(i as int) =~= ids);
    (answerable, abstention)
}

// ---------------------------------------------------------------------------
// Evidence retrieval
// ---------------------------------------------------------------------------

/// The session that an atom was created for: the last pair recorded for
/// the atom's id.
pub open spec fn session_of(pairs: Seq<(Seq<char>, Seq<char>)>, atom_id: Seq<char>) -> Option<
    Seq<char>,
>
    decreases pairs.len(),
{
    if pairs.len() == 0 {
        None
    } else if pairs.last().0 == atom_id {
        Some(pairs.last().1)
    } else {
        session_of(pairs.drop_last(), atom_id)
    }
}

/// The text of atom/session pairs.
pub open spec fn pairs_view(pairs: Seq<(String, String)>) -> Seq<(Seq<char>, Seq<char>)> {
    pairs.map_values(|p: (String, String)| (p.0@, p.1@))
}

/// Sessions of the retrieved atoms, in rank order; atoms that belong to no
/// session are skipped.
pub open spec fn retrieved_sessions(
    atom_ids: Seq<Seq<char>>,
    pairs: Seq<(Seq<char>, Seq<char>)>,
) -> Seq<Seq<char>>
    decreases atom_ids.len(),
{
    if atom_ids.len() == 0 {
        Seq::empty()
    } else {
        let rest = retrieved_sessions(atom_ids.drop_last(), pairs);
        match session_of(pairs, atom_ids.last()) {
            Some(s) => rest.push(s),
            None => rest,
        }
    }
}

fn lookup_session(pairs: &Vec<(String, String)>, atom_id: &String) -> (r: Option<String>)
    ensures
        match r {
            Some(s) => session_of(pairs_view(pairs@), atom_id@) == Some(s@),
            None => session_of(pairs_view(pairs@), atom_id@) is None,
        },
{
    let ghost pv = pairs_view(pairs@);
    let mut j: usize = pairs.len();
    assert(pv.take(j as int) =~= pv);
    while j > 0
        invariant
            j <= pairs.len(),
            pv == pairs_view(pairs@),
            session_of(pv.take(j as int), atom_id@) == session_of(pv, atom_id@),
        decreases j,
    {
        let p = &pairs[j - 1];
        assert(pv.take(j as int).last() == (p.0@, p.1@));
        assert(pv.take(j as int).drop_last() =~= pv.take(j - 1));
        if p.0 == *atom_id {
            return Some(p.1.clone());
        }
        j = j - 1;
    }
    assert(pv.take(0) =~= Seq::<(Seq<char>, Seq<char>)>::empty());
    None
}

/// Session ids of the retrieved atoms, in rank order.
pub fn retrieved_session_ids(result_atom_ids: &Vec<String>, atom_sessions: &Vec<(String, String)>) -> (r:
    Vec<String>)
    ensures
        strings_view(r@) == retrieved_sessions(
            strings_view(result_atom_ids@),
            pairs_view(atom_sessions@),
        ),
{
    let ghost ids = strings_view(result_atom_ids@);
    let ghost pv = pairs_view(atom_sessions@);
    let mut r: Vec<String> = Vec::new();
    let mut i: usize = 0;
    assert(strings_view(r@) =~= Seq::<Seq<char>>::empty());
    assert(ids.take(0) =~= Seq::<Seq<char>>::empty());
    while i < result_atom_ids.len()
        invariant
            i <= result_atom_ids.len(),
            ids == strings_view(result_atom_ids@),
            pv == pairs_view(atom_sessions@),
            strings_view(r@) == retrieved_sessions(ids.take(i as int), pv),
        decreases result_atom_ids.len() - i,
    {
        let ghost before = strings_view(r@);
        assert(ids.take(i + 1).drop_last() =~= ids.take(i as int));
        assert(ids.take(i + 1).last() == result_atom_ids@[i as int]@);
        match lookup_session(atom_sessions, &result_atom_ids[i]) {
            Some(s) => {
                r.push(s);
                assert(strings_view(r@) =~= before.push(r@.last()@));
            },
            None => {},
        }
        i = i + 1;
    }
    assert(ids.take(i as int) =~= ids);
    r
}

/// How many retrieved sessions are evidence sessions.
pub open spec fn evidence_hits(retrieved: Seq<Seq<char>>, evidence: Seq<Seq<char>>) -> nat
    decreases retrieved.len(),
{
    if retrieved.len() == 0 {
        0
    } else {
        evidence_hits(retrieved.drop_last(), evidence) + if evidence.contains(retrieved.last()) {
            1nat
        } else {
            0nat
        }
    }
}

fn contains_string(v: &Vec<String>, x: &String) -> (r: bool)
    ensures
        r == strings_view(v@).contains(x@),
{
    let mut i: usize = 0;
    while i < v.len()
        invariant
            i <= v.len(),
            forall|j: int| 0 <= j < i ==> v@[j]@ != x@,
        decreases v.len() - i,
    {
        if v[i] == *x {
            assert(strings_view(v@)[i as int] == x@);
            return true;
        }
        i = i + 1;
    }
    assert(!strings_view(v@).contains(x@)) by {
        if strings_view(v@).contains(x@) {
            let k = choose|k: int| 0 <= k < strings_view(v@).len() && strings_view(v@)[k] == x@;
            assert(v@[k]@ == x@);
        }
    }
    false
}

/// Number of retrieved sessions that are evidence sessions.
pub fn count_retrieved_evidence(retrieved: &Vec<String>, evidence: &Vec<String>) -> (n: usize)
    ensures
        n == evidence_hits(strings_view(retrieved@), strings_view(evidence@)),
{
    let ghost rv = strings_view(retrieved@);
    let ghost ev = strings_view(evidence@);
    let mut n: usize = 0;
    let mut i: usize = 0;
    while i < retrieved.len()
        invariant
            i <= retrieved.len(),
            rv == strings_view(retrieved@),
            ev == strings_view(evidence@),
            n == evidence_hits(rv.take(i as int), ev),
            n <= i,
        decreases retrieved.len() - i,
    {
        assert(rv.take(i + 1).drop_last() =~= rv.take(i as int));
        assert(rv.take(i + 1).last() == retrieved@[i as int]@);
        if contains_string(evidence, &retrieved[i]) {
            n = n + 1;
        }
        i = i + 1;
    }
    assert(rv.take(i as int) =~= rv);
    n
}

/// Rank (1-based) of the first retrieved session that is an evidence
/// session.
pub open spec fn first_evidence_rank_spec(retrieved: Seq<Seq<char>>, evidence: Seq<Seq<char>>, from: int) -> Option<
    nat,
>
    decreases retrieved.len() - from,
{
    if 0 <= from < retrieved.len() {
        if evidence.contains(retrieved[from]) {
            Some((from + 1) as nat)
        } else {
            first_evidence_rank_spec(retrieved, evidence, from + 1)
        }
    } else {
        None
    }
}

/// Rank (1-based) of the first retrieved evidence session, if any.
pub fn first_evidence_rank(retrieved: &Vec<String>, evidence: &Vec<String>) -> (r: Option<usize>)
    ensures
        r == match first_evidence_rank_spec(strings_view(retrieved@), strings_view(evidence@), 0) {
            Some(k) => Some(k as usize),
            None => None,
        },
{
    let ghost rv = strings_view(retrieved@);
    let ghost ev = strings_view(evidence@);
    let mut i: usize = 0;
    while i < retrieved.len()
        invariant
            i <= retrieved.len(),
            rv == strings_view(retrieved@),
            ev == strings_view(evidence@),
            first_evidence_rank_spec(rv, ev, i as int) == first_evidence_rank_spec(rv, ev, 0),
        decreases retrieved.len() - i,
    {
        assert(rv[i as int] == retrieved@[i as int]@);
        if contains_string(evidence, &retrieved[i]) {
            return Some(i + 1);
        }
        i = i + 1;
    }
    None
}

proof fn lemma_rank_from_hits(rv: Seq<Seq<char>>, ev: Seq<Seq<char>>, from: int)
    requires
        0 <= from <= rv.len(),
    ensures
        (first_evidence_rank_spec(rv, ev, from) is Some) == (exists|k: int|
            from <= k < rv.len() && ev.contains(#[trigger] rv[k])),
        match first_evidence_rank_spec(rv, ev, from) {
            Some(k) => from < k <= rv.len() && ev.contains(rv[k - 1]),
            None => true,
        },
    decreases rv.len() - from,
{
    if from < rv.len() && !ev.contains(rv[from]) {
        lemma_rank_from_hits(rv, ev, from + 1);
        if exists|k: int| from <= k < rv.len() && ev.contains(#[trigger] rv[k]) {
            let k = choose|k: int| from <= k < rv.len() && ev.contains(#[trigger] rv[k]);
            assert(k != from);
        }
    }
}

proof fn lemma_hits_positive(rv: Seq<Seq<char>>, ev: Seq<Seq<char>>)
    ensures
        (evidence_hits(rv, ev) > 0) == (exists|k: int| 0 <= k < rv.len() && ev.contains(#[trigger] rv[k])),
        evidence_hits(rv, ev) <= rv.len(),
    decreases rv.len(),
{
    if rv.len() > 0 {
        let d = rv.drop_last();
        lemma_hits_positive(d, ev);
        if exists|k: int| 0 <= k < rv.len() && ev.contains(#[trigger] rv[k]) {
            let k = choose|k: int| 0 <= k < rv.len() && ev.contains(#[trigger] rv[k]);
            if k < rv.len() - 1 {
                assert(d[k] == rv[k]);
            }
        }
        if exists|k: int| 0 <= k < d.len() && ev.contains(#[trigger] d[k]) {
            let k = choose|k: int| 0 <= k < d.len() && ev.contains(#[trigger] d[k]);
            assert(rv[k] == d[k]);
        }
    }
}

/// The evidence measures agree: a first evidence rank exists exactly when
/// some retrieved session is evidence, and it lies within the retrieved
/// sessions.
pub proof fn evidence_rank_agrees_with_hits(retrieved: Seq<Seq<char>>, evidence: Seq<Seq<char>>)
    ensures
        (first_evidence_rank_spec(retrieved, evidence, 0) is Some) == (evidence_hits(
            retrieved,
            evidence,
        ) > 0),
        evidence_hits(retrieved, evidence) <= retrieved.len(),
        match first_evidence_rank_spec(retrieved, evidence, 0) {
            Some(k) => 1 <= k <= retrieved.len(),
            None => true,
        },
{
    lemma_rank_from_hits(retrieved, evidence, 0);
    lemma_hits_positive(retrieved, evidence);
}

// ---------------------------------------------------------------------------
// Waiting for an atom's pipeline
// ---------------------------------------------------------------------------

/// Events of the embedding and tagging pipeline.
#[derive(Debug)]
pub enum PipelineEvent {
    EmbeddingComplete { atom_id: String },
    EmbeddingFailed { atom_id: String, error: String },
    TaggingComplete { atom_id: String },
    TaggingSkipped { atom_id: String },
    TaggingFailed { atom_id: String, error: String },
    /// Any other pipeline event.
    Other,
}

/// Which stages of an atom's pipeline have finished.
#[derive(Debug, Clone, Copy, PartialEq, Eq, Structural)]
pub struct PipelineProgress {
    pub embedding_done: bool,
    pub tagging_done: bool,
}

/// A pipeline stage that failed for the awaited atom.
#[derive(Debug)]
pub enum PipelineFailure {
    Embedding { atom_id: String, error: String },
    Tagging { atom_id: String, error: String },
}

impl PipelineFailure {
    /// The error text of a failed stage.
    pub fn message(&self) -> (r: String)
        ensures
            r@ == (match *self {
                PipelineFailure::Embedding { atom_id, error } => "embedding failed for atom "@
                    + atom_id@ + ": "@ + error@,
                PipelineFailure::Tagging { atom_id, error } => "tagging failed for atom "@
                    + atom_id@ + ": "@ + error@,
            }),
    {
        let mut r = String::new();
        match self {
            PipelineFailure::Embedding { atom_id, error } => {
                push_str(&mut r, "embedding failed for atom ");
                push_str(&mut r, atom_id.as_str());
                push_str(&mut r, ": ");
                push_str(&mut r, error.as_str());
            },
            PipelineFailure::Tagging { atom_id, error } => {
                push_str(&mut r, "tagging failed for atom ");
                push_str(&mut r, atom_id.as_str());
                push_str(&mut r, ": ");
                push_str(&mut r, error.as_str());
            },
        }
        r
    }
}

/// The progress after one event for the awaited atom `id`: completions
/// (and a skipped tagging) for it mark their stage done, failures for it
/// end the wait, everything else changes nothing.
pub open spec fn pipeline_next(p: PipelineProgress, e: PipelineEvent, id: Seq<char>) -> Result<
    PipelineProgress,
    PipelineFailure,
> {
    match e {
        PipelineEvent::EmbeddingComplete { atom_id } => if atom_id@ == id {
            Ok(PipelineProgress { embedding_done: true, tagging_done: p.tagging_done })
        } else {
            Ok(p)
        },
        PipelineEvent::EmbeddingFailed { atom_id, error } => if atom_id@ == id {
            Err(PipelineFailure::Embedding { atom_id, error })
        } else {
            Ok(p)
        },
        PipelineEvent::TaggingComplete { atom_id } => if atom_id@ == id {
            Ok(PipelineProgress { embedding_done: p.embedding_done, tagging_done: true })
        } else {
            Ok(p)
        },
        PipelineEvent::TaggingSkipped { atom_id } => if atom_id@ == id {
            Ok(PipelineProgress { embedding_done: p.embedding_done, tagging_done: true })
        } else {
            Ok(p)
        },
        PipelineEvent::TaggingFailed { atom_id, error } => if atom_id@ == id {
            Err(PipelineFailure::Tagging { atom_id, error })
        } else {
            Ok(p)
        },
        PipelineEvent::Other => Ok(p),
    }
}

impl PipelineProgress {
    /// Nothing finished yet.
    pub fn new() -> (p: PipelineProgress)
        ensures
            !p.embedding_done && !p.tagging_done,
    {
        PipelineProgress { embedding_done: false, tagging_done: false }
    }

    /// Whether both stages are done, so the wait is over.
    pub fn is_finished(&self) -> (r: bool)
        ensures
            r == (self.embedding_done && self.tagging_done),
    {
        self.embedding_done && self.tagging_done
    }

    /// Takes one pipeline event into account for the awaited atom.
    pub fn step(self, event: PipelineEvent, atom_id: &str) -> (r: Result<
        PipelineProgress,
        PipelineFailure,
    >)
        ensures
            r == pipeline_next(self, event, atom_id@),
    {
        match event {
            PipelineEvent::EmbeddingComplete { atom_id: id } => if crate::routes::str_equals(
                id.as_str(),
                atom_id,
            ) {
                Ok(PipelineProgress { embedding_done: true, tagging_done: self.tagging_done })
            } else {
                Ok(self)
            },
            PipelineEvent::EmbeddingFailed { atom_id: id, error } => if crate::routes::str_equals(
                id.as_str(),
                atom_id,
            ) {
                Err(PipelineFailure::Embedding { atom_id: id, error })
            } else {
                Ok(self)
            },
            PipelineEvent::TaggingComplete { atom_id: id } => if crate::routes::str_equals(
                id.as_str(),
                atom_id,
            ) {
                Ok(PipelineProgress { embedding_done: self.embedding_done, tagging_done: true })
            } else {
                Ok(self)
            },
            PipelineEvent::TaggingSkipped { atom_id: id } => if crate::routes::str_equals(
                id.as_str(),
                atom_id,
            ) {
                Ok(PipelineProgress { embedding_done: self.embedding_done, tagging_done: true })
            } else {
                Ok(self)
            },
            PipelineEvent::TaggingFailed { atom_id: id, error } => if crate::routes::str_equals(
                id.as_str(),
                atom_id,
            ) {
                Err(PipelineFailure::Tagging { atom_id: id, error })
            } else {
                Ok(self)
            },
            PipelineEvent::Other => Ok(self),
        }
    }
}

/// The atom a pipeline event is about, if any.
pub open spec fn event_atom(e: PipelineEvent) -> Option<Seq<char>> {
    match e {
        PipelineEvent::EmbeddingComplete { atom_id } => Some(atom_id@),
        PipelineEvent::EmbeddingFailed { atom_id, .. } => Some(atom_id@),
        PipelineEvent::TaggingComplete { atom_id } => Some(atom_id@),
        PipelineEvent::TaggingSkipped { atom_id } => Some(atom_id@),
        PipelineEvent::TaggingFailed { atom_id, .. } => Some(atom_id@),
        PipelineEvent::Other => None,
    }
}

/// An event that is not about the awaited atom changes nothing: the
/// progress stays as it was and the wait goes on.
pub proof fn other_atoms_events_change_nothing(p: PipelineProgress, e: PipelineEvent, id: Seq<char>)
    requires
        event_atom(e) != Some(id),
    ensures
        pipeline_next(p, e, id) == Ok::<PipelineProgress, PipelineFailure>(p),
{
}

/// An event about the awaited atom marks exactly its own stage: an embedding
/// completion sets only the embedding flag, a tagging completion or skip
/// only the tagging flag, and a failure ends the wait.
pub proof fn own_events_mark_their_stage(p: PipelineProgress, e: PipelineEvent, id: Seq<char>)
    requires
        event_atom(e) == Some(id),
    ensures
        e is EmbeddingComplete ==> pipeline_next(p, e, id) == Ok::<PipelineProgress, PipelineFailure>(
            PipelineProgress { embedding_done: true, tagging_done: p.tagging_done },
        ),
        (e is TaggingComplete || e is TaggingSkipped) ==> pipeline_next(p, e, id) == Ok::<
            PipelineProgress,
            PipelineFailure,
        >(PipelineProgress { embedding_done: p.embedding_done, tagging_done: true }),
        (e is EmbeddingFailed || e is TaggingFailed) ==> pipeline_next(p, e, id) is Err,
{
}

/// Waiting never goes back: a stage once done stays done, and events that
/// concern other atoms change nothing.
pub proof fn pipeline_progress_is_monotone(p: PipelineProgress, e: PipelineEvent, id: Seq<char>)
    ensures
        pipeline_next(p, e, id) matches Ok(q) ==> (p.embedding_done ==> q.embedding_done) && (
        p.tagging_done ==> q.tagging_done),
{
}

// ---------------------------------------------------------------------------
// Provider configuration
// ---------------------------------------------------------------------------

/// How the benchmark reaches an AI provider.
#[derive(Debug)]
pub enum BenchAiSetup {
    /// The in-process mock server at `base_url`.
    Mock { base_url: String },
    /// OpenRouter with the given key and models.
    OpenRouter {
        api_key: String,
        embedding_model: String,
        tagging_model: String,
        enable_auto_tagging: bool,
    },
}

/// Why a benchmark configuration is refused.
#[derive(Debug, Clone, Copy, PartialEq, Eq, Structural)]
pub enum BenchConfigError {
    /// `embedding model cannot be empty`
    EmptyEmbeddingModel,
    /// `tagging model cannot be empty`
    EmptyTaggingModel,
}

/// The text of a configuration error.
pub fn bench_config_error_message(e: BenchConfigError) -> (s: &'static str)
    ensures
        s@ == (match e {
            BenchConfigError::EmptyEmbeddingModel => "embedding model cannot be empty"@,
            BenchConfigError::EmptyTaggingModel => "tagging model cannot be empty"@,
        }),
{
    match e {
        BenchConfigError::EmptyEmbeddingModel => "embedding model cannot be empty",
        BenchConfigError::EmptyTaggingModel => "tagging model cannot be empty",
    }
}

/// The OpenRouter key to use: the given one unless missing or blank.
pub fn openrouter_api_key(key: Option<String>) -> (r: Option<String>)
    ensures
        r == (match key {
            Some(k) => if trim(k@).len() > 0 {
                Some(k)
            } else {
                None
            },
            None => None,
        }),
{
    match key {
        Some(k) => {
            let t = trim_str(k.as_str());
            if t.as_str().is_empty() {
                None
            } else {
                Some(k)
            }
        },
        None => None,
    }
}

/// A settings entry.
pub open spec fn entry(k: &str, v: Seq<char>) -> (Seq<char>, Seq<char>) {
    (k@, v)
}

/// The settings that the core is configured with for a provider setup:
/// the mock's OpenAI-compatible endpoint with tagging off, or OpenRouter
/// with its key, models and tagging switch. Blank OpenRouter models are
/// refused.
pub open spec fn bench_settings(setup: BenchAiSetup) -> Result<Seq<(Seq<char>, Seq<char>)>, BenchConfigError> {
    match setup {
        BenchAiSetup::Mock { base_url } => Ok(
            seq![
                entry("provider", "openai_compat"@),
                entry("openai_compat_base_url", base_url@),
                entry("openai_compat_api_key", "atomic-bench"@),
                entry("openai_compat_embedding_model", "mock-embed"@),
                entry("openai_compat_llm_model", "mock-llm"@),
                entry("openai_compat_embedding_dimension", "1536"@),
                entry("auto_tagging_enabled", "false"@),
            ],
        ),
        BenchAiSetup::OpenRouter { api_key, embedding_model, tagging_model, enable_auto_tagging } => {
            if trim(embedding_model@).len() == 0 {
                Err(BenchConfigError::EmptyEmbeddingModel)
            } else if trim(tagging_model@).len() == 0 {
                Err(BenchConfigError::EmptyTaggingModel)
            } else {
                Ok(
                    seq![
                        entry("provider", "openrouter"@),
                        entry("openrouter_api_key", api_key@),
                        entry("embedding_model", embedding_model@),
                        entry("tagging_model", tagging_model@),
                        entry("auto_tagging_enabled", if enable_auto_tagging {
                            "true"@
                        } else {
                            "false"@
                        }),
                    ],
                )
            }
        },
    }
}

/// The text of settings entries.
pub open spec fn entries_view(v: Seq<(String, String)>) -> Seq<(Seq<char>, Seq<char>)> {
    v.map_values(|p: (String, String)| (p.0@, p.1@))
}

fn owned(s: &str) -> (r: String)
    ensures
        r@ == s@,
{
    let mut r = String::new();
    push_str(&mut r, s);
    r
}

fn push_entry(v: &mut Vec<(String, String)>, k: &str, value: &str)
    ensures
        entries_view(final(v)@) == entries_view(old(v)@).push((k@, value@)),
{
    let ghost before = v@;
    v.push((owned(k), owned(value)));
    assert(entries_view(v@) =~= entries_view(before).push((k@, value@)));
}

/// Settings that configure the core for a provider setup.
pub fn bench_core_settings(setup: &BenchAiSetup) -> (r: Result<Vec<(String, String)>, BenchConfigError>)
    ensures
        match r {
            Ok(v) => bench_settings(*setup) == Ok::<Seq<(Seq<char>, Seq<char>)>, BenchConfigError>(entries_view(v@)),
            Err(e) => bench_settings(*setup) == Err::<Seq<(Seq<char>, Seq<char>)>, BenchConfigError>(e),
        },
{
    let mut v: Vec<(String, String)> = Vec::new();
    assert(entries_view(v@) =~= Seq::<(Seq<char>, Seq<char>)>::empty());
    match setup {
        BenchAiSetup::Mock { base_url } => {
            push_entry(&mut v, "provider", "openai_compat");
            push_entry(&mut v, "openai_compat_base_url", base_url.as_str());
            push_entry(&mut v, "openai_compat_api_key", "atomic-bench");
            push_entry(&mut v, "openai_compat_embedding_model", "mock-embed");
            push_entry(&mut v, "openai_compat_llm_model", "mock-llm");
            push_entry(&mut v, "openai_compat_embedding_dimension", "1536");
            push_entry(&mut v, "auto_tagging_enabled", "false");
            assert(entries_view(v@) =~= seq![
                entry("provider", "openai_compat"@),
                entry("openai_compat_base_url", base_url@),
                entry("openai_compat_api_key", "atomic-bench"@),
                entry("openai_compat_embedding_model", "mock-embed"@),
                entry("openai_compat_llm_model", "mock-llm"@),
                entry("openai_compat_embedding_dimension", "1536"@),
                entry("auto_tagging_enabled", "false"@),
            ]);
            Ok(v)
        },
        BenchAiSetup::OpenRouter { api_key, embedding_model, tagging_model, enable_auto_tagging } => {
            if trim_str(embedding_model.as_str()).as_str().is_empty() {
                return Err(BenchConfigError::EmptyEmbeddingModel);
            }
            if trim_str(tagging_model.as_str()).as_str().is_empty() {
                return Err(BenchConfigError::EmptyTaggingModel);
            }
            push_entry(&mut v, "provider", "openrouter");
            push_entry(&mut v, "openrouter_api_key", api_key.as_str());
            push_entry(&mut v, "embedding_model", embedding_model.as_str());
            push_entry(&mut v, "tagging_model", tagging_model.as_str());
            push_entry(
                &mut v,
                "auto_tagging_enabled",
                if *enable_auto_tagging {
                    "true"
                } else {
                    "false"
                },
            );
            assert(entries_view(v@) =~= seq![
                entry("provider", "openrouter"@),
                entry("openrouter_api_key", api_key@),
                entry("embedding_model", embedding_model@),
                entry("tagging_model", tagging_model@),
                entry("auto_tagging_enabled", if *enable_auto_tagging {
                    "true"@
                } else {
                    "false"@
                }),
            ]);
            Ok(v)
        },
    }
}

/// Top-level tags the auto-tagger may extend when auto-tagging is on.
pub fn bench_autotag_targets(setup: &BenchAiSetup) -> (r: Vec<String>)
    ensures
        strings_view(r@) == (match *setup {
            BenchAiSetup::OpenRouter { enable_auto_tagging, .. } => if enable_auto_tagging {
                seq!["Topics"@, "People"@, "Locations"@, "Organizations"@, "Events"@]
            } else {
                Seq::empty()
            },
            _ => Seq::empty(),
        }),
{
    let mut r: Vec<String> = Vec::new();
    match setup {
        BenchAiSetup::OpenRouter { enable_auto_tagging, .. } => {
            if *enable_auto_tagging {
                r.push(owned("Topics"));
                r.push(owned("People"));
                r.push(owned("Locations"));
                r.push(owned("Organizations"));
                r.push(owned("Events"));
            }
        },
        _ => {},
    }
    assert(strings_view(r@) =~= (match *setup {
        BenchAiSetup::OpenRouter { enable_auto_tagging, .. } => if enable_auto_tagging {
            seq!["Topics"@, "People"@, "Locations"@, "Organizations"@, "Events"@]
        } else {
            Seq::empty()
        },
        _ => Seq::empty(),
    }));
    r
}

} // verus!
