//! The decisions of the step executor: how a step's command is launched,
//! how its exit is classified, and how its two output channels are merged.
//!
//! Spawning the process and draining its pipes is left to the caller.

use vstd::prelude::*;
use crate::clock::{signed_decimal, push_decimal};
use crate::model::{
    opt_view, strings_view, Step, StepOutput, StepOutputType, StepStatus, StepView,
};
use crate::text::{chars_of, owned, push_char};

verus! {

/// The words of `ws` joined by single spaces.
pub open spec fn join_words(ws: Seq<Seq<char>>) -> Seq<char>
    decreases ws.len(),
{
    if ws.len() == 0 {
        seq![]
    } else if ws.len() == 1 {
        ws[0]
    } else {
        join_words(ws.drop_last()) + seq![' '] + ws.last()
    }
}

/// Joins `ws` with single spaces.
pub fn join_with_spaces(ws: &Vec<String>) -> (r: String)
    ensures
        r@ == join_words(strings_view(ws@)),
{
    let ghost all = strings_view(ws@);
    let mut r = String::new();
    let mut i: usize = 0;
    while i < ws.len()
        invariant
            i <= ws@.len(),
            all == strings_view(ws@),
            r@ == join_words(all.take(i as int)),
        decreases ws.len() - i,
    {
        assert(all.take(i + 1).drop_last() =~= all.take(i as int));
        if i > 0 {
            push_char(&mut r, ' ');
        }
        r.append(ws[i].as_str());
        proof {
            if i == 0 {
                assert(all.take(1) =~= seq![all[0]]);
            }
        }
        i = i + 1;
    }
    assert(all.take(ws@.len() as int) =~= all);
    r
}

/// The program that runs a step's command: `bash`, or `sudo` when the step
/// names a user.
pub open spec fn shell_program(user: Option<Seq<char>>) -> Seq<char> {
    match user {
        Option::Some(_) => "/usr/bin/sudo"@,
        Option::None => "bash"@,
    }
}

/// The arguments of the shell program for the command line `line`.
pub open spec fn shell_args(user: Option<Seq<char>>, line: Seq<char>) -> Seq<Seq<char>> {
    match user {
        Option::Some(u) => seq!["-u"@, u, "bash"@, "-c"@, line],
        Option::None => seq!["-c"@, line],
    }
}

/// How to go on with a step that is to run.
pub enum Launch {
    /// Spawn `program` with `args`; the step's `cwd` and environment apply.
    Spawn { program: String, args: Vec<String> },
    /// Do not spawn: the step takes `status`, and `message`, when present, is
    /// logged on the error channel.
    Refuse { status: StepStatus, message: Option<String> },
}

pub open spec fn command_missing_message() -> Seq<char> {
    "Command is not specified"@
}

/// The launch that fits a step.
pub open spec fn launch_decision(s: StepView, r: Launch) -> bool {
    match s.action {
        Option::None => r matches Launch::Refuse { status, message } && status == StepStatus::Nok
            && message is None,
        Option::Some(a) => if a.cmd.len() == 0 {
            r matches Launch::Refuse { status, message } && status == StepStatus::Failed
                && opt_view(message) == Option::Some(command_missing_message())
        } else {
            r matches Launch::Spawn { program, args } && program@ == shell_program(s.user)
                && strings_view(args@) == shell_args(s.user, join_words(a.cmd))
        },
    }
}

impl Step {
    /// Decides how the step's command is launched: through
    /// `bash -c '<tokens joined by spaces>'`, under `sudo -u <user>` when a
    /// user is set. A step with no action ends `Nok` with no line; one with
    /// an empty command ends `Failed` with an error line.
    pub fn launch(&self) -> (r: Launch)
        ensures
            launch_decision(self@, r),
    {
        match &self.action {
            None => Launch::Refuse { status: StepStatus::Nok, message: None },
            Some(act) => {
                if act.cmd.len() == 0 {
                    return Launch::Refuse {
                        status: StepStatus::Failed,
                        message: Some(owned("Command is not specified")),
                    };
                }
                let line = join_with_spaces(&act.cmd);
                let mut args: Vec<String> = Vec::new();
                let program = match &self.user {
                    Some(u) => {
                        args.push(owned("-u"));
                        args.push(u.clone());
                        args.push(owned("bash"));
                        owned("/usr/bin/sudo")
                    },
                    None => owned("bash"),
                };
                args.push(owned("-c"));
                args.push(line);
                assert(strings_view(args@) =~= shell_args(self@.user, join_words(strings_view(act.cmd@))));
                Launch::Spawn { program, args }
            },
        }
    }
}

pub open spec fn missing_workdir_message(path: Seq<char>) -> Seq<char> {
    "Work directory does not exist: "@ + path
}

/// How a step ended: its status and the closing line of its log.
pub struct Outcome {
    pub status: StepStatus,
    pub out_type: StepOutputType,
    pub text: String,
}

/// The outcome of a step whose working directory does not exist: `Failed`,
/// with an error line that names the directory.
pub fn missing_workdir(path: &str) -> (r: Outcome)
    ensures
        r.status == StepStatus::Failed,
        r.out_type == StepOutputType::Error,
        r.text@ == missing_workdir_message(path@),
{
    let mut text = owned("Work directory does not exist: ");
    text.append(path);
    Outcome { status: StepStatus::Failed, out_type: StepOutputType::Error, text }
}

pub open spec fn exit_text(code: Option<i32>) -> Seq<char> {
    match code {
        Option::Some(n) => "----> Step is ended with exit code "@ + signed_decimal(n as int),
        Option::None => "----> Step is ended without exit code"@,
    }
}

/// Classifies the exit of a step's process: code zero is `Success` with an
/// info line; any other code, or none (killed by a signal), is `Nok` with an
/// error line.
pub fn exit_outcome(code: Option<i32>) -> (r: Outcome)
    ensures
        r.status == (if code == Some(0i32) { StepStatus::Success } else { StepStatus::Nok }),
        r.out_type == (if code == Some(0i32) { StepOutputType::Info } else { StepOutputType::Error }),
        r.text@ == exit_text(code),
{
    match code {
        Some(n) => {
            let mut text = owned("----> Step is ended with exit code ");
            if n < 0 {
                push_char(&mut text, '-');
                let m: i64 = -(n as i64);
                push_decimal(&mut text, m as u64);
            } else {
                push_decimal(&mut text, n as u64);
            }
            proof {
                assert(text@ =~= exit_text(code));
            }
            if n == 0 {
                Outcome { status: StepStatus::Success, out_type: StepOutputType::Info, text }
            } else {
                Outcome { status: StepStatus::Nok, out_type: StepOutputType::Error, text }
            }
        },
        None => Outcome {
            status: StepStatus::Nok,
            out_type: StepOutputType::Error,
            text: owned("----> Step is ended without exit code"),
        },
    }
}

pub open spec fn failure_text(reason: Seq<char>) -> Seq<char> {
    "----> Step is failed: "@ + reason
}

/// The outcome of a step whose process could not be waited for.
pub fn wait_failure(reason: &str) -> (r: Outcome)
    ensures
        r.status == StepStatus::Failed,
        r.out_type == StepOutputType::Error,
        r.text@ == failure_text(reason@),
{
    let mut text = owned("----> Step is failed: ");
    text.append(reason);
    Outcome { status: StepStatus::Failed, out_type: StepOutputType::Error, text }
}

pub struct OutputView {
    pub time: Seq<char>,
    pub text: Seq<char>,
    pub out_type: StepOutputType,
}

impl View for StepOutput {
    type V = OutputView;

    open spec fn view(&self) -> OutputView {
        OutputView { time: self.time@, text: self.text@, out_type: self.out_type }
    }
}

pub open spec fn outputs_view(v: Seq<StepOutput>) -> Seq<OutputView> {
    v.map_values(|o: StepOutput| o@)
}

/// `a[i..]` comes no later than `b[i..]` in the order of characters.
pub open spec fn lex_le_from(a: Seq<char>, b: Seq<char>, i: int) -> bool
    decreases a.len() - i,
{
    if i >= a.len() {
        true
    } else if i >= b.len() {
        false
    } else if (a[i] as u32) < (b[i] as u32) {
        true
    } else if (a[i] as u32) > (b[i] as u32) {
        false
    } else {
        lex_le_from(a, b, i + 1)
    }
}

/// Timestamp `a` is no later than timestamp `b`: they are compared as text,
/// character by character, which for `YYYY-MM-DD HH:MM:SS` is the order of time.
pub open spec fn time_le(a: Seq<char>, b: Seq<char>) -> bool {
    lex_le_from(a, b, 0)
}

proof fn lemma_lex_total(a: Seq<char>, b: Seq<char>, i: int)
    requires
        0 <= i,
    ensures
        lex_le_from(a, b, i) || lex_le_from(b, a, i),
    decreases a.len() - i,
{
    if i < a.len() && i < b.len() && (a[i] as u32) == (b[i] as u32) {
        lemma_lex_total(a, b, i + 1);
    }
}

fn time_le_exec(a: &Vec<char>, b: &Vec<char>) -> (r: bool)
    ensures
        r == time_le(a@, b@),
{
    let mut i: usize = 0;
    while i < a.len()
        invariant
            i <= a@.len(),
            time_le(a@, b@) == lex_le_from(a@, b@, i as int),
        decreases a.len() - i,
    {
        if i >= b.len() {
            return false;
        }
        if (a[i] as u32) < (b[i] as u32) {
            return true;
        }
        if (a[i] as u32) > (b[i] as u32) {
            return false;
        }
        i = i + 1;
    }
    true
}

/// Lines are in non-decreasing timestamp order.
pub open spec fn time_sorted(s: Seq<OutputView>) -> bool {
    forall|i: int| 0 <= i < s.len() - 1 ==> time_le(#[trigger] s[i].time, s[i + 1].time)
}

/// Where `x` goes in `s`: after every line from position `i` on whose time is
/// no later than its own, up to the first later one.
pub open spec fn insert_pos(s: Seq<OutputView>, x: OutputView, i: int) -> int
    decreases s.len() - i,
{
    if i >= s.len() {
        s.len() as int
    } else if time_le(s[i].time, x.time) {
        insert_pos(s, x, i + 1)
    } else {
        i
    }
}

/// The lines of `s` in stable timestamp order: each line is inserted, in
/// turn, after the lines already placed whose time is no later than its own.
pub open spec fn sort_by_time(s: Seq<OutputView>) -> Seq<OutputView>
    decreases s.len(),
{
    if s.len() == 0 {
        seq![]
    } else {
        let r = sort_by_time(s.drop_last());
        r.insert(insert_pos(r, s.last(), 0), s.last())
    }
}

proof fn lemma_insert_pos(s: Seq<OutputView>, x: OutputView, i: int)
    requires
        0 <= i <= s.len(),
    ensures
        i <= insert_pos(s, x, i) <= s.len(),
        forall|j: int| i <= j < insert_pos(s, x, i) ==> time_le(#[trigger] s[j].time, x.time),
        insert_pos(s, x, i) < s.len() ==> !time_le(s[insert_pos(s, x, i)].time, x.time),
    decreases s.len() - i,
{
    if i < s.len() && time_le(s[i].time, x.time) {
        lemma_insert_pos(s, x, i + 1);
    }
}

proof fn lemma_insert_sorted(s: Seq<OutputView>, x: OutputView)
    requires
        time_sorted(s),
    ensures
        time_sorted(s.insert(insert_pos(s, x, 0), x)),
{
    let k = insert_pos(s, x, 0);
    lemma_insert_pos(s, x, 0);
    let t = s.insert(k, x);
    assert forall|i: int| 0 <= i < t.len() - 1 implies time_le(#[trigger] t[i].time, t[i + 1].time) by {
        if i < k - 1 {
            assert(t[i] == s[i] && t[i + 1] == s[i + 1]);
        } else if i == k - 1 {
            assert(t[i] == s[k - 1] && t[i + 1] == x);
        } else if i == k {
            assert(t[i + 1] == s[k]);
            lemma_lex_total(s[k].time, x.time, 0);
        } else {
            assert(t[i] == s[i - 1] && t[i + 1] == s[i]);
        }
    }
}

/// Sorting by time yields lines in non-decreasing timestamp order.
pub proof fn lemma_sort_by_time_sorted(s: Seq<OutputView>)
    ensures
        time_sorted(sort_by_time(s)),
        sort_by_time(s).len() == s.len(),
    decreases s.len(),
{
    if s.len() > 0 {
        lemma_sort_by_time_sorted(s.drop_last());
        let r = sort_by_time(s.drop_last());
        lemma_insert_pos(r, s.last(), 0);
        lemma_insert_sorted(r, s.last());
    }
}

/// The characters of `s` without its newlines.
pub open spec fn without_newlines(s: Seq<char>) -> Seq<char>
    decreases s.len(),
{
    if s.len() == 0 {
        seq![]
    } else if s.last() == '\n' {
        without_newlines(s.drop_last())
    } else {
        without_newlines(s.drop_last()).push(s.last())
    }
}

/// Removes every newline from `s`.
pub fn strip_newlines(s: &str) -> (r: String)
    ensures
        r@ == without_newlines(s@),
{
    let v = chars_of(s);
    let mut r = String::new();
    let mut i: usize = 0;
    while i < v.len()
        invariant
            i <= v@.len(),
            r@ == without_newlines(v@.take(i as int)),
        decreases v.len() - i,
    {
        assert(v@.take(i + 1).drop_last() =~= v@.take(i as int));
        if v[i] != '\n' {
            push_char(&mut r, v[i]);
        }
        i = i + 1;
    }
    assert(v@.take(v@.len() as int) =~= v@);
    r
}

pub open spec fn stripped(o: OutputView) -> OutputView {
    OutputView { text: without_newlines(o.text), ..o }
}

/// The log of a step's output: the lines of both channels in stable
/// timestamp order (on equal times, stdout before stderr, and each channel
/// in its own order), with newlines removed from their text.
pub open spec fn merged_log(out: Seq<OutputView>, err: Seq<OutputView>) -> Seq<OutputView> {
    sort_by_time(out + err).map_values(|o: OutputView| stripped(o))
}

fn insert_by_time(r: &mut Vec<StepOutput>, x: StepOutput)
    ensures
        outputs_view(final(r)@) == outputs_view(old(r)@).insert(
            insert_pos(outputs_view(old(r)@), x@, 0),
            x@,
        ),
{
    let ghost s = outputs_view(r@);
    let xt = chars_of(x.time.as_str());
    let mut k: usize = 0;
    let mut stop = false;
    while k < r.len() && !stop
        invariant
            k <= r@.len(),
            s == outputs_view(r@),
            insert_pos(s, x@, 0) == insert_pos(s, x@, k as int),
            stop ==> insert_pos(s, x@, k as int) == k,
            xt@ == x@.time,
        decreases r.len() - k + (if stop { 0int } else { 1int }),
    {
        let rt = chars_of(r[k].time.as_str());
        assert(s[k as int] == r@[k as int]@);
        if !time_le_exec(&rt, &xt) {
            stop = true;
        } else {
            k = k + 1;
        }
    }
    assert(insert_pos(s, x@, 0) == k);
    r.insert(k, x);
    assert(outputs_view(r@) =~= s.insert(k as int, x@));
}

/// Merges the lines of a step's two output channels into its log.
pub fn merge_outputs(stdout: Vec<StepOutput>, stderr: Vec<StepOutput>) -> (r: Vec<StepOutput>)
    ensures
        outputs_view(r@) == merged_log(outputs_view(stdout@), outputs_view(stderr@)),
        time_sorted(outputs_view(r@)),
{
    let ghost all = outputs_view(stdout@) + outputs_view(stderr@);
    let mut rest = stdout;
    let mut errs = stderr;
    rest.append(&mut errs);
    assert(outputs_view(rest@) =~= all);
    let mut sorted: Vec<StepOutput> = Vec::new();
    let mut i: usize = 0;
    let n = rest.len();
    while rest.len() > 0
        invariant
            i + rest@.len() == n,
            n == all.len(),
            outputs_view(rest@) == all.skip(i as int),
            outputs_view(sorted@) == sort_by_time(all.take(i as int)),
        decreases rest.len(),
    {
        let ghost before = rest@;
        let x = rest.remove(0);
        assert(all.take(i + 1).drop_last() =~= all.take(i as int));
        assert(x == before[0]);
        assert(outputs_view(before)[0] == x@);
        assert(rest@ =~= before.skip(1));
        assert(outputs_view(rest@) =~= outputs_view(before).skip(1));
        assert(all.skip(i as int).skip(1) =~= all.skip(i + 1));
        assert(x@ == all[i as int]);
        insert_by_time(&mut sorted, x);
        assert(outputs_view(rest@) =~= all.skip(i + 1));
        i = i + 1;
    }
    assert(all.take(i as int) =~= all);
    let ghost sv = outputs_view(sorted@);
    proof {
        lemma_sort_by_time_sorted(all);
    }
    let mut r: Vec<StepOutput> = Vec::new();
    let mut j: usize = 0;
    while j < sorted.len()
        invariant
            j <= sorted@.len(),
            sv == outputs_view(sorted@),
            outputs_view(r@) == sv.take(j as int).map_values(|o: OutputView| stripped(o)),
        decreases sorted.len() - j,
    {
        let o = &sorted[j];
        assert(sv[j as int] == sorted@[j as int]@);
        let ghost r0 = outputs_view(r@);
        let line = StepOutput { time: o.time.clone(), text: strip_newlines(o.text.as_str()), out_type: o.out_type };
        r.push(line);
        assert(line@ == stripped(sv[j as int]));
        assert(outputs_view(r@) =~= r0.push(line@));
        assert(outputs_view(r@) =~= sv.take(j + 1).map_values(|o: OutputView| stripped(o)));
        j = j + 1;
    }
    assert(sv.take(sorted@.len() as int) =~= sv);
    assert forall|k: int| 0 <= k < outputs_view(r@).len() - 1 implies time_le(
        #[trigger] outputs_view(r@)[k].time,
        outputs_view(r@)[k + 1].time,
    ) by {
        assert(outputs_view(r@)[k].time == sv[k].time);
        assert(outputs_view(r@)[k + 1].time == sv[k + 1].time);
    }
    r
}

} // verus!
