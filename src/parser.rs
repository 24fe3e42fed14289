//! The plan descriptor format.
//!
//! A plan file is read line by line. Blank lines and lines starting with `#`
//! are skipped. A line starting with `<plan`, `<step` or `<recovery` opens a
//! tag; its words, and those of the lines that follow, are collected until a
//! line holds the closing `</plan>`, `</step>` or `</recovery>`. The words of a
//! step are read in order: attributes of the shape `key="value"` first (values
//! of `desc` and `setenv` may span several words), then, after the first word
//! holding `>`, the command words up to the closing tag.

use vstd::prelude::*;
use crate::model::{
    empty_step, opt_view, pairs_view, steps_view, strings_view, validation_message, Action,
    ActionView, Plan, PlanView, Step, StepStatus, StepType, StepView,
};
use crate::text::{
    chars_of, contains, contains_chars, eq_chars, find_char, matches_at, split_words, index_from, lemma_index_from_bounds,
    owned, starts_with, string_from, words,
};

verus! {

/// The text between the first `"` of `w` and the next one (or the end).
pub open spec fn quoted(w: Seq<char>) -> Seq<char> {
    let q = index_from(w, '"', 0);
    if q >= w.len() {
        seq![]
    } else {
        w.subrange(q + 1, index_from(w, '"', q + 1))
    }
}

/// `w` holds a `"`.
pub open spec fn has_quote(w: Seq<char>) -> bool {
    index_from(w, '"', 0) < w.len()
}

/// `w` holds a second `"`, which closes the value that the first one opened.
pub open spec fn closes_in_word(w: Seq<char>) -> bool {
    has_quote(w) && index_from(w, '"', index_from(w, '"', 0) + 1) < w.len()
}

/// The part of `w` before its first `"`.
pub open spec fn before_quote(w: Seq<char>) -> Seq<char> {
    w.subrange(0, index_from(w, '"', 0))
}

/// Position of the first entry of `env` under `key`, or its length.
pub open spec fn env_index(env: Seq<(Seq<char>, Seq<char>)>, key: Seq<char>, i: int) -> int
    decreases env.len() - i,
{
    if i >= env.len() {
        env.len() as int
    } else if env[i].0 == key {
        i
    } else {
        env_index(env, key, i + 1)
    }
}

/// `env` with `key` set to `value`: an entry under `key` is replaced, else one
/// is added at the end.
pub open spec fn env_insert(
    env: Seq<(Seq<char>, Seq<char>)>,
    key: Seq<char>,
    value: Seq<char>,
) -> Seq<(Seq<char>, Seq<char>)> {
    let i = env_index(env, key, 0);
    if i < env.len() {
        env.update(i, (key, value))
    } else {
        env.push((key, value))
    }
}

pub open spec fn env_message() -> Seq<char> {
    "Key and/or value is missing in setenv option"@
}

pub open spec fn parent_message(name: Seq<char>) -> Seq<char> {
    "Reference as parent for "@ + name + " but does not exist yet!"@
}

pub open spec fn missing_id_message() -> Seq<char> {
    "Plan ID is missing"@
}

/// Where the reading of a step's words stands.
pub struct StepScan {
    pub step: StepView,
    pub cwd: Option<Seq<char>>,
    pub rec_desc: bool,
    pub rec_env: bool,
    pub rec_cmd: bool,
    pub done: bool,
    pub key: Seq<char>,
    pub value: Seq<char>,
}

pub open spec fn initial_scan() -> StepScan {
    StepScan {
        step: empty_step(),
        cwd: Option::None,
        rec_desc: false,
        rec_env: false,
        rec_cmd: false,
        done: false,
        key: seq![],
        value: seq![],
    }
}

/// The action after the command word `w` is added to `a`.
pub open spec fn push_command(a: Option<ActionView>, cwd: Option<Seq<char>>, w: Seq<char>) -> ActionView {
    match a {
        Option::Some(a) => ActionView { cmd: a.cmd.push(w), cwd: a.cwd },
        Option::None => ActionView { cmd: seq![w], cwd: cwd },
    }
}

/// A word read while a `setenv` value is open.
pub open spec fn scan_env_word(st: StepScan, w: Seq<char>) -> Result<StepScan, Seq<char>> {
    if has_quote(w) {
        let v = st.value + before_quote(w);
        if v.len() == 0 || st.key.len() == 0 {
            Err(env_message())
        } else {
            Ok(StepScan {
                step: StepView { env: env_insert(st.step.env, st.key, v), ..st.step },
                key: seq![],
                value: seq![],
                rec_env: false,
                ..st
            })
        }
    } else if st.key.len() == 0 {
        Ok(StepScan { key: w, ..st })
    } else {
        Ok(StepScan { value: st.value + w + seq![' '], ..st })
    }
}

/// A word read while a `desc` value is open.
pub open spec fn scan_desc_word(st: StepScan, w: Seq<char>) -> StepScan {
    if has_quote(w) {
        let b = before_quote(w);
        let d = if b.len() > 0 { st.step.description + seq![' '] + b } else { st.step.description };
        StepScan { step: StepView { description: d, ..st.step }, rec_desc: false, ..st }
    } else {
        StepScan {
            step: StepView { description: st.step.description + seq![' '] + w, ..st.step },
            ..st
        }
    }
}

/// The word sets one of the attributes whose value is a single word.
pub open spec fn sets_single_word_value(w: Seq<char>) -> bool {
    contains(w, "user=\""@) || contains(w, "cwd=\""@) || contains(w, "name=\""@) || contains(
        w,
        "parent=\""@,
    )
}

/// Only `desc` and `setenv` values may span several words; another value
/// that is not closed in its first word is refused.
pub open spec fn open_value_message(w: Seq<char>) -> Seq<char> {
    "Only desc and setenv values may contain spaces: "@ + w
}

/// A word of the attribute portion, outside any open value.
pub open spec fn scan_attribute_word(
    st: StepScan,
    w: Seq<char>,
    names: Seq<Seq<char>>,
) -> Result<StepScan, Seq<char>> {
    if sets_single_word_value(w) && !closes_in_word(w) {
        Err(open_value_message(w))
    } else {
        scan_attribute_values(st, w, names)
    }
}

/// A word of the attribute portion whose single-word values are closed.
pub open spec fn scan_attribute_values(
    st: StepScan,
    w: Seq<char>,
    names: Seq<Seq<char>>,
) -> Result<StepScan, Seq<char>> {
    let v = quoted(w);
    let s1 = if contains(w, "user=\""@) {
        StepScan { step: StepView { user: Option::Some(v), ..st.step }, ..st }
    } else {
        st
    };
    let s2 = if contains(w, "cwd=\""@) { StepScan { cwd: Option::Some(v), ..s1 } } else { s1 };
    let s3 = if contains(w, "name=\""@) {
        StepScan { step: StepView { name: v, ..s2.step }, ..s2 }
    } else {
        s2
    };
    if contains(w, "parent=\""@) && !names.contains(v) {
        Err(parent_message(v))
    } else {
        let s4 = if contains(w, "parent=\""@) {
            StepScan { step: StepView { parent: Option::Some(v), ..s3.step }, ..s3 }
        } else {
            s3
        };
        if contains(w, "setenv=\""@) {
            if closes_in_word(w) {
                Err(env_message())
            } else {
                Ok(StepScan { key: v, value: seq![], rec_env: true, ..s4 })
            }
        } else if contains(w, "desc=\""@) {
            Ok(StepScan {
                step: StepView { description: v, ..s4.step },
                rec_desc: !closes_in_word(w),
                ..s4
            })
        } else {
            Ok(s4)
        }
    }
}

/// A word before the command portion.
pub open spec fn scan_head_word(
    st: StepScan,
    w: Seq<char>,
    names: Seq<Seq<char>>,
) -> Result<StepScan, Seq<char>> {
    if st.rec_env {
        scan_env_word(st, w)
    } else if st.rec_desc {
        Ok(scan_desc_word(st, w))
    } else if w == "<step"@ {
        Ok(StepScan { step: StepView { kind: StepType::Action, ..st.step }, ..st })
    } else if w == "<recovery"@ {
        Ok(StepScan { step: StepView { kind: StepType::Recovery, ..st.step }, ..st })
    } else {
        scan_attribute_word(st, w, names)
    }
}

/// One word of a step; `names` are the names of the steps read before it.
pub open spec fn scan_word(st: StepScan, w: Seq<char>, names: Seq<Seq<char>>) -> Result<
    StepScan,
    Seq<char>,
> {
    if st.done {
        Ok(st)
    } else if st.rec_cmd {
        if w == "</step>"@ || w == "</recovery>"@ {
            Ok(StepScan { done: true, ..st })
        } else {
            Ok(
                StepScan {
                    step: StepView {
                        action: Option::Some(push_command(st.step.action, st.cwd, w)),
                        ..st.step
                    },
                    ..st
                },
            )
        }
    } else {
        match scan_head_word(st, w, names) {
            Err(e) => Err(e),
            Ok(s) => if !s.rec_env && !s.rec_desc && contains(w, ">"@) {
                Ok(StepScan { rec_cmd: true, ..s })
            } else {
                Ok(s)
            },
        }
    }
}

/// The words of a step, read from the first.
pub open spec fn scan_words(ws: Seq<Seq<char>>, names: Seq<Seq<char>>) -> Result<StepScan, Seq<char>>
    decreases ws.len(),
{
    if ws.len() == 0 {
        Ok(initial_scan())
    } else {
        match scan_words(ws.drop_last(), names) {
            Err(e) => Err(e),
            Ok(st) => scan_word(st, ws.last(), names),
        }
    }
}

/// The step that the words `ws` describe, or why they describe none.
pub open spec fn step_of(ws: Seq<Seq<char>>, names: Seq<Seq<char>>) -> Result<StepView, Seq<char>> {
    match scan_words(ws, names) {
        Err(e) => Err(e),
        Ok(st) => if validation_message(st.step).len() == 0 {
            Ok(st.step)
        } else {
            Err(validation_message(st.step))
        },
    }
}

/// One word of a plan tag: whether a plan tag is open, and the id so far.
/// An id value must be closed in the word that opens it.
pub open spec fn scan_plan_word(open: bool, id: Seq<char>, w: Seq<char>) -> Result<
    (bool, Seq<char>),
    Seq<char>,
> {
    if w == "<plan"@ {
        Ok((true, id))
    } else if open && contains(w, "id=\""@) && !closes_in_word(w) {
        Err(open_value_message(w))
    } else {
        let id2 = if open && contains(w, "id=\""@) { quoted(w) } else { id };
        let open2 = if open && contains(w, "</plan>"@) { false } else { open };
        Ok((open2, id2))
    }
}

pub open spec fn scan_plan_words(open: bool, id: Seq<char>, ws: Seq<Seq<char>>) -> Result<
    (bool, Seq<char>),
    Seq<char>,
>
    decreases ws.len(),
{
    if ws.len() == 0 {
        Ok((open, id))
    } else {
        match scan_plan_words(open, id, ws.drop_last()) {
            Err(e) => Err(e),
            Ok(p) => scan_plan_word(p.0, p.1, ws.last()),
        }
    }
}

pub open spec fn step_names(steps: Seq<StepView>) -> Seq<Seq<char>> {
    steps.map_values(|s: StepView| s.name)
}

/// Where the reading of a plan file stands after some lines.
pub struct LineScan {
    pub collect: bool,
    pub pending: Seq<Seq<char>>,
    pub open: bool,
    pub id: Seq<char>,
    pub steps: Seq<StepView>,
}

pub open spec fn initial_lines() -> LineScan {
    LineScan { collect: false, pending: seq![], open: false, id: seq![], steps: seq![] }
}

pub open spec fn opens_tag(line: Seq<char>) -> bool {
    starts_with(line, "<step"@) || starts_with(line, "<recovery"@) || starts_with(line, "<plan"@)
}

pub open spec fn closes_step(line: Seq<char>) -> bool {
    contains(line, "</step>"@) || contains(line, "</recovery>"@)
}

/// One line of a plan file.
pub open spec fn scan_line(st: LineScan, line: Seq<char>) -> Result<LineScan, Seq<char>> {
    if line.len() == 0 || starts_with(line, "#"@) || !(st.collect || opens_tag(line)) {
        Ok(st)
    } else {
        let pending = st.pending + words(line);
        let scanned = if contains(line, "</plan>"@) {
            scan_plan_words(st.open, st.id, pending)
        } else {
            Ok((st.open, st.id))
        };
        match scanned {
            Err(e) => Err(e),
            Ok(ps) => {
                let rest = if contains(line, "</plan>"@) { seq![] } else { pending };
                if closes_step(line) {
                    match step_of(rest, step_names(st.steps)) {
                        Err(e) => Err(e),
                        Ok(s) => Ok(
                            LineScan {
                                collect: false,
                                pending: seq![],
                                open: ps.0,
                                id: ps.1,
                                steps: st.steps.push(s),
                            },
                        ),
                    }
                } else {
                    Ok(
                        LineScan {
                            collect: !contains(line, "</plan>"@),
                            pending: rest,
                            open: ps.0,
                            id: ps.1,
                            steps: st.steps,
                        },
                    )
                }
            },
        }
    }
}

pub open spec fn scan_lines(lines: Seq<Seq<char>>) -> Result<LineScan, Seq<char>>
    decreases lines.len(),
{
    if lines.len() == 0 {
        Ok(initial_lines())
    } else {
        match scan_lines(lines.drop_last()) {
            Err(e) => Err(e),
            Ok(st) => scan_line(st, lines.last()),
        }
    }
}

/// The plan that the lines of a plan file describe, or the reason they
/// describe none.
pub open spec fn parse_plan(lines: Seq<Seq<char>>) -> Result<PlanView, Seq<char>> {
    match scan_lines(lines) {
        Err(e) => Err(e),
        Ok(st) => if st.id.len() == 0 {
            Err(missing_id_message())
        } else {
            Ok(PlanView { id: st.id, status: StepStatus::NotRun, steps: st.steps })
        },
    }
}

} // verus!

verus! {

/// How the outcome of an exec step relates to the outcome of its spec step.
pub open spec fn scan_outcome(
    expected: Result<StepScan, Seq<char>>,
    r: Result<(), String>,
    after: StepScan,
) -> bool {
    match expected {
        Ok(s) => r is Ok && after == s,
        Err(e) => r matches Err(m) && m@ == e,
    }
}

struct StepBuilder {
    step: Step,
    cwd: Option<String>,
    rec_desc: bool,
    rec_env: bool,
    rec_cmd: bool,
    done: bool,
    key: String,
    value: String,
}

impl StepBuilder {
    spec fn scan(&self) -> StepScan {
        StepScan {
            step: self.step@,
            cwd: opt_view(self.cwd),
            rec_desc: self.rec_desc,
            rec_env: self.rec_env,
            rec_cmd: self.rec_cmd,
            done: self.done,
            key: self.key@,
            value: self.value@,
        }
    }
}

fn quoted_of(w: &Vec<char>) -> (r: String)
    ensures
        r@ == quoted(w@),
{
    let q = find_char(w, '"', 0);
    if q >= w.len() {
        return String::new();
    }
    let e = find_char(w, '"', q + 1);
    proof {
        lemma_index_from_bounds(w@, '"', q + 1);
    }
    string_from(w, q + 1, e)
}

fn has_quote_in(w: &Vec<char>) -> (r: bool)
    ensures
        r == has_quote(w@),
{
    find_char(w, '"', 0) < w.len()
}

fn closes_in(w: &Vec<char>) -> (r: bool)
    ensures
        r == closes_in_word(w@),
{
    let q = find_char(w, '"', 0);
    if q >= w.len() {
        return false;
    }
    find_char(w, '"', q + 1) < w.len()
}

fn before_quote_of(w: &Vec<char>) -> (r: String)
    ensures
        r@ == before_quote(w@),
{
    let q = find_char(w, '"', 0);
    proof {
        lemma_index_from_bounds(w@, '"', 0);
    }
    string_from(w, 0, q)
}

fn env_set(env: &mut Vec<(String, String)>, key: String, value: String)
    ensures
        pairs_view(final(env)@) == env_insert(pairs_view(old(env)@), key@, value@),
{
    let ghost old_view = pairs_view(env@);
    let mut i: usize = 0;
    while i < env.len()
        invariant
            i <= env@.len(),
            env@ == old(env)@,
            old_view == pairs_view(env@),
            env_index(old_view, key@, 0) == env_index(old_view, key@, i as int),
        decreases env.len() - i,
    {
        if env[i].0 == key {
            env.set(i, (key, value));
            assert(pairs_view(env@) =~= old_view.update(i as int, (key@, value@)));
            return;
        }
        i = i + 1;
    }
    env.push((key, value));
    assert(pairs_view(env@) =~= old_view.push((key@, value@)));
}

fn name_exists(steps: &Vec<Step>, name: &String) -> (r: bool)
    ensures
        r == step_names(steps_view(steps@)).contains(name@),
{
    let ghost names = step_names(steps_view(steps@));
    let mut i: usize = 0;
    while i < steps.len()
        invariant
            i <= steps@.len(),
            names == step_names(steps_view(steps@)),
            names.len() == steps@.len(),
            forall|j: int| 0 <= j < i ==> names[j] != name@,
        decreases steps.len() - i,
    {
        if steps[i].step_name == *name {
            assert(names[i as int] == name@);
            return true;
        }
        i = i + 1;
    }
    false
}

fn env_error() -> (r: String)
    ensures
        r@ == env_message(),
{
    owned("Key and/or value is missing in setenv option")
}

fn parent_error(name: &String) -> (r: String)
    ensures
        r@ == parent_message(name@),
{
    let mut r = owned("Reference as parent for ");
    r.append(name.as_str());
    r.append(" but does not exist yet!");
    r
}

fn env_word(b: &mut StepBuilder, w: &Vec<char>) -> (r: Result<(), String>)
    ensures
        scan_outcome(scan_env_word(old(b).scan(), w@), r, final(b).scan()),
{
    if has_quote_in(w) {
        let bq = before_quote_of(w);
        let mut v = b.value.clone();
        v.append(bq.as_str());
        if v.as_str().is_empty() || b.key.as_str().is_empty() {
            return Err(env_error());
        }
        let key = b.key.clone();
        env_set(&mut b.step.envvars, key, v);
        b.key = String::new();
        b.value = String::new();
        b.rec_env = false;
        Ok(())
    } else if b.key.as_str().is_empty() {
        b.key = string_from(w, 0, w.len());
        assert(w@.subrange(0, w@.len() as int) =~= w@);
        Ok(())
    } else {
        let ws = string_from(w, 0, w.len());
        assert(w@.subrange(0, w@.len() as int) =~= w@);
        let ghost v0 = b.value@;
        b.value.append(ws.as_str());
        b.value.append(" ");
        proof {
            reveal_strlit(" ");
            assert(b.value@ =~= v0 + w@ + seq![' ']);
        }
        Ok(())
    }
}

fn desc_word(b: &mut StepBuilder, w: &Vec<char>)
    ensures
        final(b).scan() == scan_desc_word(old(b).scan(), w@),
{
    proof {
        reveal_strlit(" ");
    }
    let ghost d0 = b.step.description@;
    if has_quote_in(w) {
        let bq = before_quote_of(w);
        if !bq.as_str().is_empty() {
            b.step.description.append(" ");
            b.step.description.append(bq.as_str());
            assert(b.step.description@ =~= d0 + seq![' '] + bq@);
        }
        b.rec_desc = false;
    } else {
        let ws = string_from(w, 0, w.len());
        assert(w@.subrange(0, w@.len() as int) =~= w@);
        b.step.description.append(" ");
        b.step.description.append(ws.as_str());
        assert(b.step.description@ =~= d0 + seq![' '] + w@);
    }
}

fn open_value_error(w: &Vec<char>) -> (r: String)
    ensures
        r@ == open_value_message(w@),
{
    let mut r = owned("Only desc and setenv values may contain spaces: ");
    let ws = string_from(w, 0, w.len());
    assert(w@.subrange(0, w@.len() as int) =~= w@);
    r.append(ws.as_str());
    r
}

fn attribute_word(b: &mut StepBuilder, w: &Vec<char>, steps: &Vec<Step>) -> (r: Result<(), String>)
    ensures
        scan_outcome(
            scan_attribute_word(old(b).scan(), w@, step_names(steps_view(steps@))),
            r,
            final(b).scan(),
        ),
{
    let single = contains_chars(w, &chars_of("user=\"")) || contains_chars(w, &chars_of("cwd=\""))
        || contains_chars(w, &chars_of("name=\"")) || contains_chars(w, &chars_of("parent=\""));
    if single && !closes_in(w) {
        return Err(open_value_error(w));
    }
    attribute_values(b, w, steps)
}

fn attribute_values(b: &mut StepBuilder, w: &Vec<char>, steps: &Vec<Step>) -> (r: Result<(), String>)
    ensures
        scan_outcome(
            scan_attribute_values(old(b).scan(), w@, step_names(steps_view(steps@))),
            r,
            final(b).scan(),
        ),
{
    let v = quoted_of(w);
    if contains_chars(w, &chars_of("user=\"")) {
        b.step.user = Some(v.clone());
    }
    if contains_chars(w, &chars_of("cwd=\"")) {
        b.cwd = Some(v.clone());
    }
    if contains_chars(w, &chars_of("name=\"")) {
        b.step.step_name = v.clone();
    }
    if contains_chars(w, &chars_of("parent=\"")) {
        if !name_exists(steps, &v) {
            return Err(parent_error(&v));
        }
        b.step.parent = Some(v.clone());
    }
    if contains_chars(w, &chars_of("setenv=\"")) {
        if closes_in(w) {
            return Err(env_error());
        }
        b.key = v;
        b.value = String::new();
        b.rec_env = true;
    } else if contains_chars(w, &chars_of("desc=\"")) {
        b.step.description = v;
        b.rec_desc = !closes_in(w);
    }
    Ok(())
}

fn head_word(b: &mut StepBuilder, w: &Vec<char>, steps: &Vec<Step>) -> (r: Result<(), String>)
    ensures
        scan_outcome(
            scan_head_word(old(b).scan(), w@, step_names(steps_view(steps@))),
            r,
            final(b).scan(),
        ),
{
    if b.rec_env {
        env_word(b, w)
    } else if b.rec_desc {
        desc_word(b, w);
        Ok(())
    } else if eq_chars(w, &chars_of("<step")) {
        b.step.step_type = StepType::Action;
        Ok(())
    } else if eq_chars(w, &chars_of("<recovery")) {
        b.step.step_type = StepType::Recovery;
        Ok(())
    } else {
        attribute_word(b, w, steps)
    }
}

fn push_command_word(action: &mut Option<Action>, cwd: &Option<String>, w: String)
    ensures
        match *final(action) {
            Option::Some(a) => a@ == push_command(
                match *old(action) {
                    Option::Some(a) => Option::Some(a@),
                    Option::None => Option::None,
                },
                opt_view(*cwd),
                w@,
            ),
            Option::None => false,
        },
{
    match action {
        Some(a) => {
            let ghost before = a.cmd@;
            a.cmd.push(w);
            assert(strings_view(a.cmd@) =~= strings_view(before).push(w@));
        },
        None => {
            let c = match cwd {
                Some(c) => Some(c.clone()),
                None => None,
            };
            *action = Some(Action::new(w, c));
        },
    }
}

fn word_of_step(b: &mut StepBuilder, w: &Vec<char>, steps: &Vec<Step>) -> (r: Result<(), String>)
    ensures
        scan_outcome(
            scan_word(old(b).scan(), w@, step_names(steps_view(steps@))),
            r,
            final(b).scan(),
        ),
{
    if b.done {
        return Ok(());
    }
    if b.rec_cmd {
        if eq_chars(w, &chars_of("</step>")) || eq_chars(w, &chars_of("</recovery>")) {
            b.done = true;
            return Ok(());
        }
        let ws = string_from(w, 0, w.len());
        assert(w@.subrange(0, w@.len() as int) =~= w@);
        push_command_word(&mut b.step.action, &b.cwd, ws);
        return Ok(());
    }
    let r = head_word(b, w, steps);
    if r.is_err() {
        return r;
    }
    if !b.rec_env && !b.rec_desc && contains_chars(w, &chars_of(">")) {
        b.rec_cmd = true;
    }
    Ok(())
}

pub open spec fn words_view(ws: Seq<Vec<char>>) -> Seq<Seq<char>> {
    ws.map_values(|w: Vec<char>| w@)
}

/// Builds the step that the words `ws` describe; `steps` are the steps read
/// before it.
fn build_step(ws: &Vec<Vec<char>>, steps: &Vec<Step>) -> (r: Result<Step, String>)
    ensures
        match step_of(words_view(ws@), step_names(steps_view(steps@))) {
            Ok(s) => r matches Ok(st) && st@ == s,
            Err(e) => r matches Err(m) && m@ == e,
        },
{
    let ghost names = step_names(steps_view(steps@));
    let ghost all = words_view(ws@);
    let mut b = StepBuilder {
        step: Step::new_empty(),
        cwd: None,
        rec_desc: false,
        rec_env: false,
        rec_cmd: false,
        done: false,
        key: String::new(),
        value: String::new(),
    };
    let mut i: usize = 0;
    while i < ws.len()
        invariant
            i <= ws@.len(),
            all == words_view(ws@),
            names == step_names(steps_view(steps@)),
            scan_words(all.take(i as int), names) == Ok::<StepScan, Seq<char>>(b.scan()),
        decreases ws.len() - i,
    {
        assert(all.take(i + 1).drop_last() =~= all.take(i as int));
        let r = word_of_step(&mut b, &ws[i], steps);
        match r {
            Err(e) => {
                assert(!(scan_words(all.take(i + 1), names) is Ok));
                proof {
                    lemma_scan_words_err_stays(all, names, i + 1);
                }
                return Err(e);
            },
            Ok(()) => {},
        }
        i = i + 1;
    }
    assert(all.take(ws@.len() as int) =~= all);
    match b.step.validate() {
        Err(e) => Err(e),
        Ok(()) => Ok(b.step),
    }
}

/// Once the scan of a step's words has failed, reading more words keeps the
/// same error.
proof fn lemma_scan_words_err_stays(all: Seq<Seq<char>>, names: Seq<Seq<char>>, k: int)
    requires
        0 <= k <= all.len(),
        scan_words(all.take(k), names) is Err,
    ensures
        scan_words(all, names) == scan_words(all.take(k), names),
    decreases all.len() - k,
{
    if k < all.len() {
        assert(all.take(k + 1).drop_last() =~= all.take(k));
        lemma_scan_words_err_stays(all, names, k + 1);
    } else {
        assert(all.take(k) =~= all);
    }
}

proof fn lemma_scan_plan_words_err_stays(open: bool, id: Seq<char>, all: Seq<Seq<char>>, k: int)
    requires
        0 <= k <= all.len(),
        scan_plan_words(open, id, all.take(k)) is Err,
    ensures
        scan_plan_words(open, id, all) == scan_plan_words(open, id, all.take(k)),
    decreases all.len() - k,
{
    if k < all.len() {
        assert(all.take(k + 1).drop_last() =~= all.take(k));
        lemma_scan_plan_words_err_stays(open, id, all, k + 1);
    } else {
        assert(all.take(k) =~= all);
    }
}

fn plan_words(open: &mut bool, id: &mut String, ws: &Vec<Vec<char>>) -> (r: Result<(), String>)
    ensures
        match scan_plan_words(*old(open), old(id)@, words_view(ws@)) {
            Ok(p) => r is Ok && (*final(open), final(id)@) == p,
            Err(e) => r matches Err(m) && m@ == e,
        },
{
    let ghost all = words_view(ws@);
    let ghost o0 = *open;
    let ghost d0 = id@;
    let mut i: usize = 0;
    while i < ws.len()
        invariant
            i <= ws@.len(),
            all == words_view(ws@),
            o0 == *old(open),
            d0 == old(id)@,
            scan_plan_words(o0, d0, all.take(i as int)) == Ok::<(bool, Seq<char>), Seq<char>>(
                (*open, id@),
            ),
        decreases ws.len() - i,
    {
        assert(all.take(i + 1).drop_last() =~= all.take(i as int));
        let w = &ws[i];
        if eq_chars(w, &chars_of("<plan")) {
            *open = true;
        } else {
            let has_id = contains_chars(w, &chars_of("id=\""));
            if *open && has_id && !closes_in(w) {
                proof {
                    lemma_scan_plan_words_err_stays(o0, d0, all, i + 1);
                }
                return Err(open_value_error(w));
            }
            if *open && has_id {
                *id = quoted_of(w);
            }
            if *open && contains_chars(w, &chars_of("</plan>")) {
                *open = false;
            }
        }
        i = i + 1;
    }
    assert(all.take(ws@.len() as int) =~= all);
    Ok(())
}

/// Once the scan of a plan file has failed, reading more lines keeps the
/// same error.
proof fn lemma_scan_lines_err_stays(all: Seq<Seq<char>>, k: int)
    requires
        0 <= k <= all.len(),
        scan_lines(all.take(k)) is Err,
    ensures
        scan_lines(all) == scan_lines(all.take(k)),
    decreases all.len() - k,
{
    if k < all.len() {
        assert(all.take(k + 1).drop_last() =~= all.take(k));
        lemma_scan_lines_err_stays(all, k + 1);
    } else {
        assert(all.take(k) =~= all);
    }
}

fn opens_tag_in(line: &Vec<char>) -> (r: bool)
    ensures
        r == opens_tag(line@),
{
    matches_at(line, &chars_of("<step"), 0) || matches_at(line, &chars_of("<recovery"), 0)
        || matches_at(line, &chars_of("<plan"), 0)
}

/// Reads a plan from the lines of a plan file (line terminators removed).
pub fn collect_steps(lines: &Vec<String>) -> (r: Result<Plan, String>)
    ensures
        match parse_plan(strings_view(lines@)) {
            Ok(p) => r matches Ok(plan) && plan@ == p,
            Err(e) => r matches Err(m) && m@ == e,
        },
{
    let ghost all = strings_view(lines@);
    let mut collect = false;
    let mut pending: Vec<Vec<char>> = Vec::new();
    let mut open = false;
    let mut id = String::new();
    let mut steps: Vec<Step> = Vec::new();
    proof {
        assert(words_view(pending@) =~= seq![]);
        assert(steps_view(steps@) =~= seq![]);
    }
    let mut i: usize = 0;
    while i < lines.len()
        invariant
            i <= lines@.len(),
            all == strings_view(lines@),
            scan_lines(all.take(i as int)) == Ok::<LineScan, Seq<char>>(
                LineScan {
                    collect: collect,
                    pending: words_view(pending@),
                    open: open,
                    id: id@,
                    steps: steps_view(steps@),
                },
            ),
        decreases lines.len() - i,
    {
        assert(all.take(i + 1).drop_last() =~= all.take(i as int));
        let line = chars_of(lines[i].as_str());
        if line.len() == 0 || matches_at(&line, &chars_of("#"), 0) || !(collect || opens_tag_in(
            &line,
        )) {
            i = i + 1;
            continue;
        }
        let mut lw = split_words(&line);
        let ghost p0 = words_view(pending@);
        pending.append(&mut lw);
        assert(words_view(pending@) =~= p0 + words(line@));
        let plan_closed = contains_chars(&line, &chars_of("</plan>"));
        if plan_closed {
            match plan_words(&mut open, &mut id, &pending) {
                Err(e) => {
                    proof {
                        lemma_scan_lines_err_stays(all, i + 1);
                    }
                    return Err(e);
                },
                Ok(()) => {},
            }
            pending = Vec::new();
            assert(words_view(pending@) =~= seq![]);
        }
        if contains_chars(&line, &chars_of("</step>")) || contains_chars(
            &line,
            &chars_of("</recovery>"),
        ) {
            match build_step(&pending, &steps) {
                Err(e) => {
                    proof {
                        lemma_scan_lines_err_stays(all, i + 1);
                    }
                    return Err(e);
                },
                Ok(s) => {
                    let ghost s0 = steps_view(steps@);
                    steps.push(s);
                    assert(steps_view(steps@) =~= s0.push(s@));
                },
            }
            pending = Vec::new();
            assert(words_view(pending@) =~= seq![]);
            collect = false;
        } else {
            collect = !plan_closed;
        }
        i = i + 1;
    }
    assert(all.take(lines@.len() as int) =~= all);
    if id.as_str().is_empty() {
        return Err(owned("Plan ID is missing"));
    }
    Ok(Plan::new(id, steps))
}

/// Every step that names a parent comes after a step of that name.
pub open spec fn parents_precede(steps: Seq<StepView>) -> bool {
    forall|i: int|
        #![trigger steps[i].parent]
        0 <= i < steps.len() && steps[i].parent is Some ==> exists|j: int|
            0 <= j < i && steps[j].name == steps[i].parent->0
}

/// A parent set while reading a step's words is one of the names given.
pub open spec fn parent_known(st: StepScan, names: Seq<Seq<char>>) -> bool {
    st.step.parent is Some ==> names.contains(st.step.parent->0)
}

proof fn lemma_scan_word_parent(st: StepScan, w: Seq<char>, names: Seq<Seq<char>>)
    requires
        parent_known(st, names),
    ensures
        scan_word(st, w, names) matches Ok(s) ==> parent_known(s, names),
{
}

proof fn lemma_scan_words_parent(ws: Seq<Seq<char>>, names: Seq<Seq<char>>)
    ensures
        scan_words(ws, names) matches Ok(s) ==> parent_known(s, names),
    decreases ws.len(),
{
    if ws.len() > 0 {
        lemma_scan_words_parent(ws.drop_last(), names);
        if let Ok(st) = scan_words(ws.drop_last(), names) {
            lemma_scan_word_parent(st, ws.last(), names);
        }
    }
}

proof fn lemma_scan_lines_parents(lines: Seq<Seq<char>>)
    ensures
        scan_lines(lines) matches Ok(st) ==> parents_precede(st.steps),
    decreases lines.len(),
{
    if lines.len() > 0 {
        lemma_scan_lines_parents(lines.drop_last());
        if let Ok(st) = scan_lines(lines.drop_last()) {
            let line = lines.last();
            let pending = st.pending + words(line);
            let rest = if contains(line, "</plan>"@) { seq![] } else { pending };
            let names = step_names(st.steps);
            lemma_scan_words_parent(rest, names);
            if let Ok(next) = scan_line(st, line) {
                if next.steps.len() > st.steps.len() {
                    let s = next.steps.last();
                    assert(next.steps == st.steps.push(s));
                    assert forall|i: int|
                        #![trigger next.steps[i].parent]
                        0 <= i < next.steps.len() && next.steps[i].parent is Some implies exists|j: int|
                            0 <= j < i && next.steps[j].name == next.steps[i].parent->0 by {
                        if i < st.steps.len() {
                            let j = choose|j: int|
                                0 <= j < i && st.steps[j].name == st.steps[i].parent->0;
                            assert(next.steps[j] == st.steps[j]);
                        } else {
                            let q = s.parent->0;
                            assert(names.contains(q));
                            let j = choose|j: int| 0 <= j < names.len() && names[j] == q;
                            assert(next.steps[j] == st.steps[j]);
                        }
                    }
                } else {
                    assert(next.steps == st.steps);
                }
            }
        }
    }
}

/// In a parsed plan, every step that names a parent comes after a step of
/// that name.
pub proof fn lemma_parent_precedes_child(lines: Seq<Seq<char>>)
    ensures
        parse_plan(lines) matches Ok(p) ==> parents_precede(p.steps),
{
    lemma_scan_lines_parents(lines);
}

/// Parsing depends on the lines of the file alone: two parses of the same
/// lines give the same plan, or the same error.
pub proof fn lemma_parse_deterministic(a: Seq<Seq<char>>, b: Seq<Seq<char>>)
    requires
        a == b,
    ensures
        parse_plan(a) == parse_plan(b),
{
}

/// No two entries of `env` share a key.
pub open spec fn env_keys_distinct(env: Seq<(Seq<char>, Seq<char>)>) -> bool {
    forall|i: int, j: int| 0 <= i < j < env.len() ==> env[i].0 != env[j].0
}

proof fn lemma_env_index(env: Seq<(Seq<char>, Seq<char>)>, key: Seq<char>, i: int)
    requires
        0 <= i <= env.len(),
    ensures
        i <= env_index(env, key, i) <= env.len(),
        env_index(env, key, i) < env.len() ==> env[env_index(env, key, i)].0 == key,
        forall|j: int| i <= j < env_index(env, key, i) ==> env[j].0 != key,
    decreases env.len() - i,
{
    if i < env.len() && env[i].0 != key {
        lemma_env_index(env, key, i + 1);
    }
}

proof fn lemma_env_insert_distinct(env: Seq<(Seq<char>, Seq<char>)>, key: Seq<char>, value: Seq<char>)
    requires
        env_keys_distinct(env),
    ensures
        env_keys_distinct(env_insert(env, key, value)),
{
    lemma_env_index(env, key, 0);
    let k = env_index(env, key, 0);
    let e = env_insert(env, key, value);
    assert forall|i: int, j: int| 0 <= i < j < e.len() implies e[i].0 != e[j].0 by {
        if k == env.len() && j == env.len() {
            assert(e[i] == env[i]);
        }
    }
}

proof fn lemma_scan_word_env(st: StepScan, w: Seq<char>, names: Seq<Seq<char>>)
    requires
        env_keys_distinct(st.step.env),
    ensures
        scan_word(st, w, names) matches Ok(s) ==> env_keys_distinct(s.step.env),
{
    if has_quote(w) {
        lemma_env_insert_distinct(st.step.env, st.key, st.value + before_quote(w));
    }
}

proof fn lemma_scan_words_env(ws: Seq<Seq<char>>, names: Seq<Seq<char>>)
    ensures
        scan_words(ws, names) matches Ok(s) ==> env_keys_distinct(s.step.env),
    decreases ws.len(),
{
    if ws.len() > 0 {
        lemma_scan_words_env(ws.drop_last(), names);
        if let Ok(st) = scan_words(ws.drop_last(), names) {
            lemma_scan_word_env(st, ws.last(), names);
        }
    }
}

proof fn lemma_scan_lines_env(lines: Seq<Seq<char>>)
    ensures
        scan_lines(lines) matches Ok(st) ==> forall|i: int|
            0 <= i < st.steps.len() ==> env_keys_distinct(#[trigger] st.steps[i].env),
    decreases lines.len(),
{
    if lines.len() > 0 {
        lemma_scan_lines_env(lines.drop_last());
        if let Ok(st) = scan_lines(lines.drop_last()) {
            let line = lines.last();
            let pending = st.pending + words(line);
            let rest = if contains(line, "</plan>"@) { seq![] } else { pending };
            lemma_scan_words_env(rest, step_names(st.steps));
            if let Ok(next) = scan_line(st, line) {
                assert forall|i: int|
                    0 <= i < next.steps.len() implies env_keys_distinct(#[trigger] next.steps[i].env) by {
                    if i < st.steps.len() {
                        assert(next.steps[i] == st.steps[i]);
                    }
                }
            }
        }
    }
}

/// In a parsed plan, no step sets the same environment variable twice: a
/// repeated `setenv` key replaces the earlier value.
pub proof fn lemma_env_keys_distinct(lines: Seq<Seq<char>>)
    ensures
        parse_plan(lines) matches Ok(p) ==> forall|i: int|
            0 <= i < p.steps.len() ==> env_keys_distinct(#[trigger] p.steps[i].env),
{
    lemma_scan_lines_env(lines);
}

} // verus!
