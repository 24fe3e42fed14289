//! The operations behind the request surface that decide something: run
//! submission, the lines a run's log is made of, and the names shown for
//! plans and commands.

use vstd::prelude::*;
use crate::clock::{format_log_line, log_line, msg_with_time_stamp, timestamp, LocalTime};
use crate::executor::{join_with_spaces, join_words, outputs_view, OutputView};
use crate::history::{
    history_invariant, max_id, next_id, spec_allocate, History, HistoryKey,
};
use crate::model::{
    opt_view, pairs_view, step_status_label, step_type_label, Step, strings_view, Action, ActionView, Plan, PlanView, StepOutput,
    StepOutputType, StepStatus,
};
use crate::parser::{collect_steps, parse_plan};
use crate::text::{chars_of, owned, push_char, string_from};

verus! {

pub open spec fn pending_message(name: Seq<char>) -> Seq<char> {
    "----> "@ + name + " => Pending"@
}

pub open spec fn status_message(name: Seq<char>, status: StepStatus) -> Seq<char> {
    "----> "@ + name + " => "@ + step_status_label(status)
}

pub open spec fn end_message(status: StepStatus) -> Seq<char> {
    "----> Plan is ended, overall status: "@ + step_status_label(status)
}

pub open spec fn initialized_message(set: Seq<char>, plan: Seq<char>) -> Seq<char> {
    "----> "@ + set + seq!['/'] + plan + " => Plan has initialized"@
}

pub open spec fn parse_failure_message(set: Seq<char>, plan: Seq<char>, err: Seq<char>) -> Seq<char> {
    "----> "@ + set + seq!['/'] + plan + " => Failed to parse the plan: "@ + err
}

pub open spec fn exhausted_message() -> Seq<char> {
    "No run id is left to allocate"@
}

/// The line logged before a step is decided.
pub fn pending_line(name: &str) -> (r: String)
    ensures
        r@ == pending_message(name@),
{
    let mut r = owned("----> ");
    r.append(name);
    r.append(" => Pending");
    r
}

/// The line logged once a step is final.
pub fn status_line(name: &str, status: StepStatus) -> (r: String)
    ensures
        r@ == status_message(name@, status),
{
    let mut r = owned("----> ");
    r.append(name);
    r.append(" => ");
    r.append(status.label());
    r
}

/// The line logged once every step of a plan is final.
pub fn end_line(status: StepStatus) -> (r: String)
    ensures
        r@ == end_message(status),
{
    let mut r = owned("----> Plan is ended, overall status: ");
    r.append(status.label());
    r
}

fn set_plan_prefix(set: &str, plan: &str) -> (r: String)
    ensures
        r@ == "----> "@ + set@ + seq!['/'] + plan@,
{
    let mut r = owned("----> ");
    r.append(set);
    push_char(&mut r, '/');
    r.append(plan);
    r
}

/// The log lines of a step's captured output: timestamp, channel marker and
/// text of each, in order.
pub fn output_lines(outputs: &Vec<StepOutput>) -> (r: Vec<String>)
    ensures
        strings_view(r@) == outputs_view(outputs@).map_values(
            |o: OutputView| log_line(o.time, o.out_type, o.text),
        ),
{
    let ghost all = outputs_view(outputs@).map_values(
        |o: OutputView| log_line(o.time, o.out_type, o.text),
    );
    let mut r: Vec<String> = Vec::new();
    let mut i: usize = 0;
    while i < outputs.len()
        invariant
            i <= outputs@.len(),
            all == outputs_view(outputs@).map_values(
                |o: OutputView| log_line(o.time, o.out_type, o.text),
            ),
            strings_view(r@) == all.take(i as int),
        decreases outputs.len() - i,
    {
        let o = &outputs[i];
        let line = format_log_line(o.time.as_str(), o.out_type, o.text.as_str());
        let ghost r0 = strings_view(r@);
        r.push(line);
        assert(strings_view(r@) =~= r0.push(line@));
        assert(all.take(i + 1) =~= all.take(i as int).push(all[i as int]));
        i = i + 1;
    }
    assert(all.take(outputs@.len() as int) =~= all);
    r
}

/// The lines a decided step adds to its run's log: the lines of its output
/// (none when it did not run), then its status line, stamped now.
pub fn decided_step_lines(outputs: &Vec<StepOutput>, name: &str, status: StepStatus) -> (r: Vec<String>)
    ensures
        r@.len() == outputs@.len() + 1,
        strings_view(r@).take(outputs@.len() as int) == outputs_view(outputs@).map_values(
            |o: OutputView| log_line(o.time, o.out_type, o.text),
        ),
        exists|t: LocalTime|
            t.wf() && r@[outputs@.len() as int]@ == log_line(
                timestamp(t),
                StepOutputType::Info,
                status_message(name@, status),
            ),
{
    let mut r = output_lines(outputs);
    let ghost before = strings_view(r@);
    let line = status_line(name, status);
    let stamped = msg_with_time_stamp(line.as_str(), StepOutputType::Info);
    r.push(stamped);
    assert(strings_view(r@).take(outputs@.len() as int) =~= before);
    r
}

/// The line a step adds to its run's log before it is decided, stamped now.
pub fn pending_entry(name: &str) -> (r: String)
    ensures
        exists|t: LocalTime|
            t.wf() && r@ == log_line(timestamp(t), StepOutputType::Info, pending_message(name@)),
{
    let line = pending_line(name);
    msg_with_time_stamp(line.as_str(), StepOutputType::Info)
}

/// The line that closes a run's log, stamped now.
pub fn end_entry(status: StepStatus) -> (r: String)
    ensures
        exists|t: LocalTime|
            t.wf() && r@ == log_line(timestamp(t), StepOutputType::Info, end_message(status)),
{
    let line = end_line(status);
    msg_with_time_stamp(line.as_str(), StepOutputType::Info)
}

/// Registers a run of the plan `plan` of the set `set`, whose file reads as
/// `lines` (or could not be read, for the reason given), and parses it.
///
/// The run gets the next id and its log one stamped line: that the plan was
/// initialized, or, on a read or parse failure, why it was not. On success
/// the key and the parsed plan are returned; on failure the reason. When no
/// id is left (the largest held is `u32::MAX`), nothing changes and that is
/// the error.
pub fn submit(
    history: &mut History,
    set: &str,
    plan: &str,
    lines: Result<Vec<String>, String>,
) -> (r: Result<(HistoryKey, Plan), String>)
    requires
        history_invariant(old(history)@),
    ensures
        history_invariant(final(history)@),
        max_id(old(history)@) == u32::MAX ==> final(history)@ == old(history)@ && (r matches Err(
            e,
        ) && e@ == exhausted_message()),
        max_id(old(history)@) < u32::MAX ==> exists|t: LocalTime|
            #![trigger timestamp(t)]
            t.wf() && submitted(
                old(history)@,
                final(history)@,
                set@,
                plan@,
                match lines {
                    Ok(l) => parse_plan(strings_view(l@)),
                    Err(e) => Err(e@),
                },
                timestamp(t),
                r,
            ),
{
    let set_owned = owned(set);
    let plan_owned = owned(plan);
    let allocated = history.allocate(set_owned, plan_owned);
    if allocated.is_none() {
        assert(max_id(old(history)@) == u32::MAX);
        return Err(owned("No run id is left to allocate"));
    }
    let key = allocated.unwrap();
    assert(max_id(old(history)@) < u32::MAX);
    assert(history@ == spec_allocate(old(history)@, set@, plan@));
    let ghost v0 = history@;
    let parsed = match lines {
        Ok(l) => collect_steps(&l),
        Err(e) => Err(e),
    };
    match parsed {
        Ok(p) => {
            let mut msg = set_plan_prefix(set, plan);
            msg.append(" => Plan has initialized");
            assert(msg@ =~= initialized_message(set@, plan@));
            let line = msg_with_time_stamp(msg.as_str(), StepOutputType::Info);
            let ghost lv = line@;
            let ghost t = choose|t: LocalTime|
                t.wf() && lv == log_line(timestamp(t), StepOutputType::Info, msg@);
            history.append(&key, vec![line]);
            proof {
                assert(strings_view(seq![line]) =~= seq![lv]);
                lemma_fresh_run_log(v0, key.id, key.set@, key.plan@, seq![lv]);
                assert(history@.take(old(history)@.len() as int) =~= old(history)@);
            }
            let r = Ok((key, p));
            proof {
                let h = history@;
                assert(h.len() == old(history)@.len() + 1);
                assert(h.last().id == key.id);
                assert(h.last().lines == seq![lv]);
                assert(submitted(old(history)@, history@, set@, plan@, Ok(p@), timestamp(t), r));
            }
            r
        },
        Err(e) => {
            let mut msg = set_plan_prefix(set, plan);
            msg.append(" => Failed to parse the plan: ");
            msg.append(e.as_str());
            assert(msg@ =~= parse_failure_message(set@, plan@, e@));
            let line = msg_with_time_stamp(msg.as_str(), StepOutputType::Error);
            let ghost lv = line@;
            let ghost t = choose|t: LocalTime|
                t.wf() && lv == log_line(timestamp(t), StepOutputType::Error, msg@);
            history.append(&key, vec![line]);
            proof {
                assert(strings_view(seq![line]) =~= seq![lv]);
                lemma_fresh_run_log(v0, key.id, key.set@, key.plan@, seq![lv]);
                assert(history@.take(old(history)@.len() as int) =~= old(history)@);
            }
            let r = Err(e);
            proof {
                let h = history@;
                assert(h.len() == old(history)@.len() + 1);
                assert(h.last().id == key.id);
                assert(h.last().lines == seq![lv]);
                assert(submitted(old(history)@, history@, set@, plan@, Err(e@), timestamp(t), r));
            }
            r
        },
    }
}

/// What a submission at the time `stamp` did, when an id was left: `after`
/// is `before` with a new run under the next id, whose log is one line; the
/// result is the key and the plan when `parsed` is one, else its error.
pub open spec fn submitted(
    before: Seq<crate::history::RunEntry>,
    after: Seq<crate::history::RunEntry>,
    set: Seq<char>,
    plan: Seq<char>,
    parsed: Result<PlanView, Seq<char>>,
    stamp: Seq<char>,
    r: Result<(HistoryKey, Plan), String>,
) -> bool {
    let id = next_id(before) as u32;
    &&& history_invariant(after)
    &&& after.len() == before.len() + 1
    &&& after.take(before.len() as int) == before
    &&& after.last().id == id
    &&& after.last().set == set
    &&& after.last().plan == plan
    &&& match parsed {
        Ok(p) => {
            &&& after.last().lines == seq![log_line(stamp, StepOutputType::Info, initialized_message(set, plan))]
            &&& r matches Ok(kp) && kp.0.id == id && kp.0.set@ == set && kp.0.plan@ == plan
                && kp.1@ == p
        },
        Err(e) => {
            &&& after.last().lines == seq![log_line(stamp, StepOutputType::Error, parse_failure_message(set, plan, e))]
            &&& r matches Err(m) && m@ == e
        },
    }
}

proof fn lemma_fresh_run_log(
    v: Seq<crate::history::RunEntry>,
    id: u32,
    set: Seq<char>,
    plan: Seq<char>,
    lines: Seq<Seq<char>>,
)
    requires
        history_invariant(v),
        v.len() > 0,
        v.last().id == id,
        v.last().lines == Seq::<Seq<char>>::empty(),
    ensures
        crate::history::spec_append(v, id, set, plan, lines) == v.update(
            v.len() - 1,
            crate::history::RunEntry { lines: lines, ..v.last() },
        ),
{
    let c = choose|i: int| 0 <= i < v.len() && v[i].id == id;
    assert(c == v.len() - 1);
    assert(Seq::<Seq<char>>::empty() + lines =~= lines);
}

/// The command of an action as shown to users: its words joined by spaces,
/// after `cd <cwd> && ` when it has a working directory.
pub open spec fn rendered_command(a: ActionView) -> Seq<char> {
    match a.cwd {
        Option::Some(c) => "cd "@ + c + " && "@ + join_words(a.cmd),
        Option::None => join_words(a.cmd),
    }
}

impl Action {
    /// The command as shown to users.
    pub fn render(&self) -> (r: String)
        ensures
            r@ == rendered_command(self@),
    {
        let line = join_with_spaces(&self.cmd);
        match &self.cwd {
            Some(c) => {
                let mut r = owned("cd ");
                r.append(c.as_str());
                r.append(" && ");
                r.append(line.as_str());
                r
            },
            None => line,
        }
    }
}

/// A step as shown to users: every field as text, an absent one empty.
pub struct StepRecord {
    pub name: String,
    pub desc: String,
    pub kind: String,
    pub user: String,
    pub action: String,
    pub parent: String,
    pub envvars: Vec<(String, String)>,
}

pub open spec fn or_empty(o: Option<Seq<char>>) -> Seq<char> {
    match o {
        Option::Some(s) => s,
        Option::None => seq![],
    }
}

fn text_or_empty(o: &Option<String>) -> (r: String)
    ensures
        r@ == or_empty(opt_view(*o)),
{
    match o {
        Some(s) => s.clone(),
        None => String::new(),
    }
}

fn copy_pairs(v: &Vec<(String, String)>) -> (r: Vec<(String, String)>)
    ensures
        pairs_view(r@) == pairs_view(v@),
{
    let mut r: Vec<(String, String)> = Vec::new();
    let mut i: usize = 0;
    while i < v.len()
        invariant
            i <= v@.len(),
            pairs_view(r@) == pairs_view(v@).take(i as int),
        decreases v.len() - i,
    {
        let ghost r0 = pairs_view(r@);
        let k = v[i].0.clone();
        let val = v[i].1.clone();
        r.push((k, val));
        assert(pairs_view(r@) =~= r0.push((k@, val@)));
        assert(pairs_view(r@) =~= pairs_view(v@).take(i + 1));
        i = i + 1;
    }
    assert(pairs_view(v@).take(v@.len() as int) =~= pairs_view(v@));
    r
}

/// How a step is shown to users: its name, description, kind label, user,
/// rendered command, parent and environment.
pub fn step_record(s: &Step) -> (r: StepRecord)
    ensures
        r.name@ == s@.name,
        r.desc@ == s@.description,
        r.kind@ == step_type_label(s@.kind),
        r.user@ == or_empty(s@.user),
        r.action@ == match s@.action {
            Option::Some(a) => rendered_command(a),
            Option::None => seq![],
        },
        r.parent@ == or_empty(s@.parent),
        pairs_view(r.envvars@) == s@.env,
{
    StepRecord {
        name: s.step_name.clone(),
        desc: s.description.clone(),
        kind: owned(s.step_type.label()),
        user: text_or_empty(&s.user),
        action: match &s.action {
            Some(a) => a.render(),
            None => String::new(),
        },
        parent: text_or_empty(&s.parent),
        envvars: copy_pairs(&s.envvars),
    }
}

/// The plan name of a plan file name: the name without its `.conf` ending,
/// or nothing for a file of another kind.
pub open spec fn conf_stem_of(name: Seq<char>) -> Option<Seq<char>> {
    if name.len() >= 5 && name.subrange(name.len() - 5, name.len() as int) == ".conf"@ {
        Option::Some(name.subrange(0, name.len() - 5))
    } else {
        Option::None
    }
}

/// The plan that a file of a plan set holds, if it is a plan file.
pub fn conf_stem(name: &str) -> (r: Option<String>)
    ensures
        opt_view(r) == conf_stem_of(name@),
{
    let v = chars_of(name);
    let ext = chars_of(".conf");
    proof {
        reveal_strlit(".conf");
    }
    if v.len() < 5 {
        return None;
    }
    let start = v.len() - 5;
    if crate::text::matches_at(&v, &ext, start) {
        Some(string_from(&v, 0, start))
    } else {
        None
    }
}

} // verus!
