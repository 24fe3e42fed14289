//! The run registry: the log of every run still held in memory, under the
//! run's key, and the archive files that a run's log is written to.

use vstd::prelude::*;
use crate::clock::{decimal, push_decimal};
use crate::model::strings_view;
use crate::text::{owned, push_char};

verus! {

/// The handle of a run: its id, and the plan set and plan it runs, which are
/// for display only. Keys are equal when their ids are.
#[derive(Debug)]
pub struct HistoryKey {
    pub id: u32,
    pub set: String,
    pub plan: String,
}

impl PartialEq for HistoryKey {
    fn eq(&self, other: &HistoryKey) -> (r: bool)
        ensures
            r == (self.id == other.id),
    {
        self.id == other.id
    }
}

impl vstd::std_specs::cmp::PartialEqSpecImpl for HistoryKey {
    open spec fn obeys_eq_spec() -> bool {
        true
    }

    open spec fn eq_spec(&self, other: &HistoryKey) -> bool {
        self.id == other.id
    }
}

/// `<set>.<plan>(<id>)`, the name of a run.
pub open spec fn key_label(id: u32, set: Seq<char>, plan: Seq<char>) -> Seq<char> {
    set + seq!['.'] + plan + seq!['('] + decimal(id as nat) + seq![')']
}

impl HistoryKey {
    /// A copy of the key.
    pub fn duplicate(&self) -> (r: HistoryKey)
        ensures
            r.id == self.id,
            r.set@ == self.set@,
            r.plan@ == self.plan@,
    {
        HistoryKey { id: self.id, set: self.set.clone(), plan: self.plan.clone() }
    }

    /// The name of the run, `<set>.<plan>(<id>)`.
    pub fn label(&self) -> (r: String)
        ensures
            r@ == key_label(self.id, self.set@, self.plan@),
    {
        let mut r = owned(self.set.as_str());
        push_char(&mut r, '.');
        r.append(self.plan.as_str());
        push_char(&mut r, '(');
        push_decimal(&mut r, self.id as u64);
        push_char(&mut r, ')');
        assert(r@ =~= key_label(self.id, self.set@, self.plan@));
        r
    }
}

/// What the registry holds for one run.
pub struct RunEntry {
    pub id: u32,
    pub set: Seq<char>,
    pub plan: Seq<char>,
    pub lines: Seq<Seq<char>>,
}

/// The registry holds the run `id`.
pub open spec fn holds(v: Seq<RunEntry>, id: u32) -> bool {
    exists|i: int| 0 <= i < v.len() && v[i].id == id
}

/// At most one entry per id.
pub open spec fn history_invariant(v: Seq<RunEntry>) -> bool {
    forall|i: int, j: int| 0 <= i < v.len() && 0 <= j < v.len() && v[i].id == v[j].id ==> i == j
}

/// The log of the run `id`, if the registry holds it.
pub open spec fn lines_of(v: Seq<RunEntry>, id: u32) -> Option<Seq<Seq<char>>> {
    if holds(v, id) {
        Option::Some(v[choose|i: int| 0 <= i < v.len() && v[i].id == id].lines)
    } else {
        Option::None
    }
}

/// The largest id held, or zero.
pub open spec fn max_id(v: Seq<RunEntry>) -> nat
    decreases v.len(),
{
    if v.len() == 0 {
        0
    } else {
        let m = max_id(v.drop_last());
        if v.last().id as nat > m { v.last().id as nat } else { m }
    }
}

/// The id that the next run gets: one more than the largest held, so 1 on
/// an empty registry.
pub open spec fn next_id(v: Seq<RunEntry>) -> nat {
    max_id(v) + 1
}

/// The registry after a new run is added.
pub open spec fn spec_allocate(v: Seq<RunEntry>, set: Seq<char>, plan: Seq<char>) -> Seq<RunEntry> {
    v.push(RunEntry { id: next_id(v) as u32, set: set, plan: plan, lines: seq![] })
}

/// The registry after `lines` are appended to the log of the run of `key`;
/// a run that is no longer held is held again, with these lines alone.
pub open spec fn spec_append(
    v: Seq<RunEntry>,
    id: u32,
    set: Seq<char>,
    plan: Seq<char>,
    lines: Seq<Seq<char>>,
) -> Seq<RunEntry> {
    if holds(v, id) {
        let i = choose|i: int| 0 <= i < v.len() && v[i].id == id;
        v.update(i, RunEntry { lines: v[i].lines + lines, ..v[i] })
    } else {
        v.push(RunEntry { id: id, set: set, plan: plan, lines: lines })
    }
}

/// The registry after the run `id` is dropped.
pub open spec fn spec_evict(v: Seq<RunEntry>, id: u32) -> Seq<RunEntry> {
    if holds(v, id) {
        v.remove(choose|i: int| 0 <= i < v.len() && v[i].id == id)
    } else {
        v
    }
}

struct Run {
    key: HistoryKey,
    lines: Vec<String>,
}

impl Run {
    spec fn entry(&self) -> RunEntry {
        RunEntry {
            id: self.key.id,
            set: self.key.set@,
            plan: self.key.plan@,
            lines: strings_view(self.lines@),
        }
    }
}

/// The logs of the runs held in memory.
pub struct History {
    runs: Vec<Run>,
}

impl View for History {
    type V = Seq<RunEntry>;

    closed spec fn view(&self) -> Seq<RunEntry> {
        self.runs@.map_values(|r: Run| r.entry())
    }
}

fn copy_lines(v: &Vec<String>) -> (r: Vec<String>)
    ensures
        strings_view(r@) == strings_view(v@),
{
    let mut r: Vec<String> = Vec::new();
    let mut i: usize = 0;
    while i < v.len()
        invariant
            i <= v@.len(),
            strings_view(r@) == strings_view(v@).take(i as int),
        decreases v.len() - i,
    {
        let ghost r0 = strings_view(r@);
        let c = v[i].clone();
        assert(c@ == v@[i as int]@);
        r.push(c);
        assert(strings_view(r@) =~= r0.push(c@));
        assert(strings_view(r@) =~= strings_view(v@).take(i + 1));
        i = i + 1;
    }
    assert(strings_view(v@).take(v@.len() as int) =~= strings_view(v@));
    r
}

impl History {
    /// An empty registry.
    pub fn new() -> (r: History)
        ensures
            r@ == Seq::<RunEntry>::empty(),
    {
        let r = History { runs: Vec::new() };
        assert(r@ =~= Seq::<RunEntry>::empty());
        r
    }

    fn find(&self, id: u32) -> (r: Option<usize>)
        ensures
            match r {
                Option::Some(i) => i < self@.len() && self@[i as int].id == id,
                Option::None => !holds(self@, id),
            },
    {
        let mut i: usize = 0;
        while i < self.runs.len()
            invariant
                i <= self@.len(),
                self@.len() == self.runs@.len(),
                forall|j: int| 0 <= j < i ==> self@[j].id != id,
            decreases self.runs.len() - i,
        {
            if self.runs[i].key.id == id {
                return Some(i);
            }
            i = i + 1;
        }
        None
    }

    /// Adds a run of `plan` from `set` with an empty log, under the next id:
    /// one more than the largest id held, or 1 when none is. Returns `None`,
    /// and changes nothing, when the largest id held is `u32::MAX`.
    pub fn allocate(&mut self, set: String, plan: String) -> (r: Option<HistoryKey>)
        requires
            history_invariant(old(self)@),
        ensures
            history_invariant(final(self)@),
            max_id(old(self)@) <= u32::MAX,
            max_id(old(self)@) == u32::MAX ==> r is None && final(self)@ == old(self)@,
            max_id(old(self)@) < u32::MAX ==> (r matches Option::Some(k) && k.id == next_id(
                old(self)@,
            ) && k.set@ == set@ && k.plan@ == plan@ && final(self)@ == spec_allocate(
                old(self)@,
                set@,
                plan@,
            )),
    {
        let ghost v = self@;
        let mut m: u32 = 0;
        let mut i: usize = 0;
        while i < self.runs.len()
            invariant
                i <= self@.len(),
                v == self@,
                self@.len() == self.runs@.len(),
                m == max_id(v.take(i as int)),
            decreases self.runs.len() - i,
        {
            assert(v.take(i + 1).drop_last() =~= v.take(i as int));
            if self.runs[i].key.id > m {
                m = self.runs[i].key.id;
            }
            i = i + 1;
        }
        assert(v.take(v.len() as int) =~= v);
        proof {
            lemma_max_id_bounds(v);
        }
        if m == u32::MAX {
            return None;
        }
        let key = HistoryKey { id: m + 1, set: set, plan: plan };
        let k2 = key.duplicate();
        self.runs.push(Run { key: k2, lines: Vec::new() });
        proof {
            assert(strings_view(Seq::<String>::empty()) =~= seq![]);
            assert(self@ =~= spec_allocate(v, key.set@, key.plan@));
            let w = self@;
            assert forall|a: int, b: int|
                0 <= a < w.len() && 0 <= b < w.len() && w[a].id == w[b].id implies a == b by {
                if a < v.len() {
                    assert(w[a] == v[a]);
                }
                if b < v.len() {
                    assert(w[b] == v[b]);
                }
            }
        }
        Some(key)
    }

    /// Appends `lines` to the log of the run of `key`. A run that is no
    /// longer held (its log was archived meanwhile) is held again, under
    /// `key`, with these lines alone.
    pub fn append(&mut self, key: &HistoryKey, lines: Vec<String>)
        requires
            history_invariant(old(self)@),
        ensures
            history_invariant(final(self)@),
            final(self)@ == spec_append(old(self)@, key.id, key.set@, key.plan@, strings_view(lines@)),
    {
        let ghost v = self@;
        match self.find(key.id) {
            Some(i) => {
                let mut run = self.runs.remove(i);
                let mut more = lines;
                let ghost l0 = strings_view(run.lines@);
                run.lines.append(&mut more);
                self.runs.insert(i, run);
                proof {
                    assert(strings_view(run.lines@) =~= l0 + strings_view(lines@));
                    let c = choose|c: int| 0 <= c < v.len() && v[c].id == key.id;
                    assert(c == i);
                    assert(self@ =~= v.update(i as int, run.entry()));
                    let w = self@;
                    assert forall|a: int, b: int|
                        0 <= a < w.len() && 0 <= b < w.len() && w[a].id == w[b].id implies a == b by {
                        assert(w[a].id == v[a].id);
                        assert(w[b].id == v[b].id);
                    }
                }
            },
            None => {
                self.runs.push(Run { key: key.duplicate(), lines: lines });
                proof {
                    assert(self@ =~= v.push(
                        RunEntry { id: key.id, set: key.set@, plan: key.plan@, lines: strings_view(lines@) },
                    ));
                    let w = self@;
                    assert forall|a: int, b: int|
                        0 <= a < w.len() && 0 <= b < w.len() && w[a].id == w[b].id implies a == b by {
                        if a < v.len() {
                            assert(w[a] == v[a]);
                        }
                        if b < v.len() {
                            assert(w[b] == v[b]);
                        }
                    }
                }
            },
        }
    }

    /// The log of the run `id`, if it is held.
    pub fn read(&self, id: u32) -> (r: Option<Vec<String>>)
        requires
            history_invariant(self@),
        ensures
            match lines_of(self@, id) {
                Option::Some(l) => r matches Option::Some(v) && strings_view(v@) == l,
                Option::None => r is None,
            },
    {
        match self.find(id) {
            Some(i) => {
                proof {
                    let c = choose|c: int| 0 <= c < self@.len() && self@[c].id == id;
                    assert(c == i);
                }
                Some(copy_lines(&self.runs[i].lines))
            },
            None => None,
        }
    }

    /// The key and the log of the run `id`, if it is held.
    pub fn snapshot(&self, id: u32) -> (r: Option<(HistoryKey, Vec<String>)>)
        requires
            history_invariant(self@),
        ensures
            match lines_of(self@, id) {
                Option::Some(l) => r matches Option::Some(p) && strings_view(p.1@) == l && p.0.id == id
                    && exists|i: int|
                    0 <= i < self@.len() && self@[i].id == id && self@[i].set == p.0.set@
                        && self@[i].plan == p.0.plan@,
                Option::None => r is None,
            },
    {
        match self.find(id) {
            Some(i) => {
                proof {
                    let c = choose|c: int| 0 <= c < self@.len() && self@[c].id == id;
                    assert(c == i);
                }
                let key = self.runs[i].key.duplicate();
                Some((key, copy_lines(&self.runs[i].lines)))
            },
            None => None,
        }
    }

    /// The keys of the runs held, in the order they were added.
    pub fn list_ids(&self) -> (r: Vec<HistoryKey>)
        ensures
            r@.len() == self@.len(),
            forall|i: int|
                0 <= i < r@.len() ==> #[trigger] r@[i].id == self@[i].id && r@[i].set@ == self@[i].set
                    && r@[i].plan@ == self@[i].plan,
    {
        let mut r: Vec<HistoryKey> = Vec::new();
        let mut i: usize = 0;
        while i < self.runs.len()
            invariant
                i <= self@.len(),
                self@.len() == self.runs@.len(),
                r@.len() == i,
                forall|j: int|
                    0 <= j < i ==> #[trigger] r@[j].id == self@[j].id && r@[j].set@ == self@[j].set
                        && r@[j].plan@ == self@[j].plan,
            decreases self.runs.len() - i,
        {
            r.push(self.runs[i].key.duplicate());
            i = i + 1;
        }
        r
    }

    /// Drops the run `id`; returns whether it was held.
    pub fn remove(&mut self, id: u32) -> (r: bool)
        requires
            history_invariant(old(self)@),
        ensures
            history_invariant(final(self)@),
            r == holds(old(self)@, id),
            final(self)@ == spec_evict(old(self)@, id),
    {
        let ghost v = self@;
        match self.find(id) {
            Some(i) => {
                self.runs.remove(i);
                proof {
                    let c = choose|c: int| 0 <= c < v.len() && v[c].id == id;
                    assert(c == i);
                    assert(self@ =~= v.remove(i as int));
                    let w = self@;
                    assert forall|a: int, b: int|
                        0 <= a < w.len() && 0 <= b < w.len() && w[a].id == w[b].id implies a == b by {
                        let a2 = if a < i { a } else { a + 1 };
                        let b2 = if b < i { b } else { b + 1 };
                        assert(w[a] == v[a2]);
                        assert(w[b] == v[b2]);
                    }
                }
                true
            },
            None => false,
        }
    }
}

proof fn lemma_max_id_bounds(v: Seq<RunEntry>)
    ensures
        forall|i: int| 0 <= i < v.len() ==> (#[trigger] v[i].id) as nat <= max_id(v),
        max_id(v) <= u32::MAX,
    decreases v.len(),
{
    if v.len() > 0 {
        lemma_max_id_bounds(v.drop_last());
        assert forall|i: int| 0 <= i < v.len() implies (#[trigger] v[i].id) as nat <= max_id(v) by {
            if i < v.len() - 1 {
                assert(v[i] == v.drop_last()[i]);
            }
        }
    }
}

/// The text of an archive file: each line followed by a newline.
pub open spec fn file_text(lines: Seq<Seq<char>>) -> Seq<char>
    decreases lines.len(),
{
    if lines.len() == 0 {
        seq![]
    } else {
        lines[0] + seq!['\n'] + file_text(lines.drop_first())
    }
}

proof fn lemma_file_text_concat(a: Seq<Seq<char>>, b: Seq<Seq<char>>)
    ensures
        file_text(a + b) == file_text(a) + file_text(b),
    decreases a.len(),
{
    if a.len() == 0 {
        assert(a + b =~= b);
        assert(file_text(a) + file_text(b) =~= file_text(b));
    } else {
        assert((a + b).drop_first() =~= a.drop_first() + b);
        lemma_file_text_concat(a.drop_first(), b);
        assert(file_text(a + b) =~= file_text(a) + file_text(b));
    }
}

/// The text of the archive file of a run whose log is `lines`.
pub fn archive_text(lines: &Vec<String>) -> (r: String)
    ensures
        r@ == file_text(strings_view(lines@)),
{
    let ghost all = strings_view(lines@);
    let mut r = String::new();
    let mut i: usize = 0;
    while i < lines.len()
        invariant
            i <= lines@.len(),
            all == strings_view(lines@),
            r@ == file_text(all.take(i as int)),
        decreases lines.len() - i,
    {
        let ghost r0 = r@;
        r.append(lines[i].as_str());
        push_char(&mut r, '\n');
        proof {
            assert(all.take(i + 1) =~= all.take(i as int) + seq![all[i as int]]);
            lemma_file_text_concat(all.take(i as int), seq![all[i as int]]);
            assert(seq![all[i as int]].drop_first() =~= Seq::<Seq<char>>::empty());
            assert(r@ =~= r0 + (all[i as int] + seq!['\n'] + file_text(Seq::<Seq<char>>::empty())));
        }
        i = i + 1;
    }
    assert(all.take(lines@.len() as int) =~= all);
    r
}

/// The path of the archive file of a run: `<dir>/<set>.<plan>(<id>)_<secs>.log`.
pub open spec fn archive_path_of(dir: Seq<char>, id: u32, set: Seq<char>, plan: Seq<char>, secs: u64) -> Seq<char> {
    dir + seq!['/'] + key_label(id, set, plan) + seq!['_'] + decimal(secs as nat) + ".log"@
}

/// The path of the archive file of the run of `key`, written at `secs`
/// seconds since the Unix epoch into the directory `dir`.
pub fn archive_path(dir: &str, key: &HistoryKey, secs: u64) -> (r: String)
    ensures
        r@ == archive_path_of(dir@, key.id, key.set@, key.plan@, secs),
{
    let mut r = owned(dir);
    push_char(&mut r, '/');
    let label = key.label();
    r.append(label.as_str());
    push_char(&mut r, '_');
    push_decimal(&mut r, secs);
    r.append(".log");
    r
}

/// The lines of `t[i..]`, where `cur` is the part of a line already read;
/// each newline ends a line, and a last line needs none.
pub open spec fn lines_from(t: Seq<char>, i: int, cur: Seq<char>) -> Seq<Seq<char>>
    decreases t.len() - i,
{
    if i >= t.len() {
        if cur.len() > 0 { seq![cur] } else { seq![] }
    } else if t[i] == '\n' {
        seq![cur] + lines_from(t, i + 1, seq![])
    } else {
        lines_from(t, i + 1, cur.push(t[i]))
    }
}

/// The lines of a text, as a reader of the file sees them.
pub open spec fn text_lines(t: Seq<char>) -> Seq<Seq<char>> {
    lines_from(t, 0, seq![])
}

proof fn lemma_lines_shift(p: Seq<char>, r: Seq<char>, j: int, cur: Seq<char>)
    requires
        0 <= j <= r.len(),
    ensures
        lines_from(p + r, p.len() + j, cur) == lines_from(r, j, cur),
    decreases r.len() - j,
{
    let t = p + r;
    if j < r.len() {
        assert(t[p.len() + j] == r[j]);
        lemma_lines_shift(p, r, j + 1, seq![]);
        lemma_lines_shift(p, r, j + 1, cur.push(r[j]));
    }
}

proof fn lemma_lines_first(l: Seq<char>, rest: Seq<char>, j: int)
    requires
        0 <= j <= l.len(),
        forall|k: int| 0 <= k < l.len() ==> l[k] != '\n',
    ensures
        lines_from(l + seq!['\n'] + rest, j, l.take(j)) == seq![l] + lines_from(
            l + seq!['\n'] + rest,
            l.len() + 1int,
            seq![],
        ),
    decreases l.len() - j,
{
    let t = l + seq!['\n'] + rest;
    if j < l.len() {
        assert(t[j] == l[j]);
        assert(l.take(j).push(l[j]) =~= l.take(j + 1));
        lemma_lines_first(l, rest, j + 1);
    } else {
        assert(t[j] == '\n');
        assert(l.take(j) =~= l);
    }
}

/// An archive file holds exactly the lines of the log, one per line, when no
/// line holds a newline of its own.
pub proof fn lemma_archive_round_trip(lines: Seq<Seq<char>>)
    requires
        forall|i: int, k: int| 0 <= i < lines.len() && 0 <= k < lines[i].len() ==> lines[i][k] != '\n',
    ensures
        text_lines(file_text(lines)) == lines,
    decreases lines.len(),
{
    if lines.len() > 0 {
        let l = lines[0];
        let rest = file_text(lines.drop_first());
        assert forall|i: int, k: int|
            0 <= i < lines.drop_first().len() && 0 <= k < lines.drop_first()[i].len() implies
            lines.drop_first()[i][k] != '\n' by {
            assert(lines.drop_first()[i] == lines[i + 1]);
        }
        lemma_archive_round_trip(lines.drop_first());
        assert(l.take(0) =~= Seq::<char>::empty());
        lemma_lines_first(l, rest, 0);
        lemma_lines_shift(l + seq!['\n'], rest, 0, seq![]);
        assert((l + seq!['\n']).len() == l.len() + 1);
        assert(l + seq!['\n'] + rest =~= (l + seq!['\n']) + rest);
        assert(seq![l] + lines.drop_first() =~= lines);
    } else {
        assert(file_text(lines) =~= Seq::<char>::empty());
    }
}

/// A run that is held has an id below the one the next run gets: ids grow
/// from one submission to the next as long as the earlier run is held.
pub proof fn lemma_id_monotonic(v: Seq<RunEntry>, id: u32)
    requires
        holds(v, id),
    ensures
        (id as nat) < next_id(v),
{
    lemma_max_id_bounds(v);
}

/// After a run's log is archived and dropped, the run is not found; a later
/// append holds it again with only the lines appended.
pub proof fn lemma_archive_evicts(
    v: Seq<RunEntry>,
    id: u32,
    set: Seq<char>,
    plan: Seq<char>,
    lines: Seq<Seq<char>>,
)
    requires
        history_invariant(v),
    ensures
        lines_of(spec_evict(v, id), id) is None,
        lines_of(spec_append(spec_evict(v, id), id, set, plan, lines), id) == Option::Some(lines),
{
    let w = spec_evict(v, id);
    if holds(v, id) {
        let c = choose|i: int| 0 <= i < v.len() && v[i].id == id;
        assert forall|i: int| 0 <= i < w.len() implies w[i].id != id by {
            if i < c {
                assert(w[i] == v[i]);
            } else {
                assert(w[i] == v[i + 1]);
            }
        }
    }
    assert(!holds(w, id));
    let u = spec_append(w, id, set, plan, lines);
    assert(u[w.len() as int].id == id);
    assert(holds(u, id));
    assert forall|i: int| 0 <= i < u.len() && u[i].id == id implies i == w.len() by {
        if i < w.len() {
            assert(u[i] == w[i]);
        }
    }
}

} // verus!
