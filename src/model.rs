//! The data a plan is made of: steps, their kinds and outcomes, and the
//! captured output lines of a step.

use vstd::prelude::*;

verus! {

/// Kind of a step.
/// - `Action`: a regular step, run when its parent (if any) ended `Success`
/// - `Recovery`: run only when its parent ended `Nok` or `Failed`
/// - `Unset`: not set yet; a step of this kind never validates
#[derive(Clone, Copy, Debug, PartialEq, Eq, Structural)]
pub enum StepType {
    Action,
    Recovery,
    Unset,
}

/// Outcome of a step.
/// - `Success`: the command exited with code zero
/// - `Nok`: the command exited with a non-zero code
/// - `NotRun`: the step was not attempted
/// - `Failed`: the engine could not run the command at all
#[derive(Clone, Copy, Debug, PartialEq, Eq, Structural)]
pub enum StepStatus {
    Success,
    Nok,
    NotRun,
    Failed,
}

/// Channel of a captured output line: `Info` from stdout, `Error` from stderr.
#[derive(Clone, Copy, Debug, PartialEq, Eq, Structural)]
pub enum StepOutputType {
    Info,
    Error,
}

pub open spec fn step_type_label(t: StepType) -> Seq<char> {
    match t {
        StepType::Action => "step"@,
        StepType::Recovery => "recovery"@,
        StepType::Unset => "not specified"@,
    }
}

pub open spec fn step_status_label(s: StepStatus) -> Seq<char> {
    match s {
        StepStatus::Success => "OK"@,
        StepStatus::Nok => "NOK"@,
        StepStatus::NotRun => "Did not run"@,
        StepStatus::Failed => "Failed"@,
    }
}

pub open spec fn output_type_label(t: StepOutputType) -> Seq<char> {
    match t {
        StepOutputType::Info => "I"@,
        StepOutputType::Error => "E"@,
    }
}

impl StepType {
    /// Printable name of the kind.
    pub fn label(&self) -> (r: &'static str)
        ensures
            r@ == step_type_label(*self),
    {
        match self {
            StepType::Action => "step",
            StepType::Recovery => "recovery",
            StepType::Unset => "not specified",
        }
    }
}

impl StepStatus {
    /// Printable name of the outcome.
    pub fn label(&self) -> (r: &'static str)
        ensures
            r@ == step_status_label(*self),
    {
        match self {
            StepStatus::Success => "OK",
            StepStatus::Nok => "NOK",
            StepStatus::NotRun => "Did not run",
            StepStatus::Failed => "Failed",
        }
    }
}

impl StepOutputType {
    /// One-letter channel marker used in log lines.
    pub fn label(&self) -> (r: &'static str)
        ensures
            r@ == output_type_label(*self),
    {
        match self {
            StepOutputType::Info => "I",
            StepOutputType::Error => "E",
        }
    }
}


/// The command of a step: its tokens, and the directory it runs in.
#[derive(Clone, Debug)]
pub struct Action {
    pub cmd: Vec<String>,
    pub cwd: Option<String>,
}

pub struct ActionView {
    pub cmd: Seq<Seq<char>>,
    pub cwd: Option<Seq<char>>,
}

pub open spec fn opt_view(o: Option<String>) -> Option<Seq<char>> {
    match o {
        Option::Some(s) => Option::Some(s@),
        Option::None => Option::None,
    }
}

pub open spec fn strings_view(v: Seq<String>) -> Seq<Seq<char>> {
    v.map_values(|s: String| s@)
}

pub open spec fn pairs_view(v: Seq<(String, String)>) -> Seq<(Seq<char>, Seq<char>)> {
    v.map_values(|p: (String, String)| (p.0@, p.1@))
}

impl View for Action {
    type V = ActionView;

    open spec fn view(&self) -> ActionView {
        ActionView { cmd: strings_view(self.cmd@), cwd: opt_view(self.cwd) }
    }
}

impl Action {
    /// An action of a single command token.
    pub fn new(cmd: String, cwd: Option<String>) -> (r: Action)
        ensures
            r@.cmd == seq![cmd@],
            r@.cwd == opt_view(cwd),
    {
        let base = vec![cmd];
        proof {
            assert(strings_view(base@) =~= seq![cmd@]);
        }
        Action { cmd: base, cwd: cwd }
    }
}

/// One step of a plan.
#[derive(Clone, Debug)]
pub struct Step {
    pub step_name: String,
    pub description: String,
    pub step_type: StepType,
    pub user: Option<String>,
    pub action: Option<Action>,
    pub parent: Option<String>,
    pub status: StepStatus,
    pub envvars: Vec<(String, String)>,
}

pub struct StepView {
    pub name: Seq<char>,
    pub description: Seq<char>,
    pub kind: StepType,
    pub user: Option<Seq<char>>,
    pub action: Option<ActionView>,
    pub parent: Option<Seq<char>>,
    pub status: StepStatus,
    pub env: Seq<(Seq<char>, Seq<char>)>,
}

impl View for Step {
    type V = StepView;

    open spec fn view(&self) -> StepView {
        StepView {
            name: self.step_name@,
            description: self.description@,
            kind: self.step_type,
            user: opt_view(self.user),
            action: match self.action {
                Option::Some(a) => Option::Some(a@),
                Option::None => Option::None,
            },
            parent: opt_view(self.parent),
            status: self.status,
            env: pairs_view(self.envvars@),
        }
    }
}

/// The step that a parse starts from: every field empty or unset.
pub open spec fn empty_step() -> StepView {
    StepView {
        name: seq![],
        description: seq![],
        kind: StepType::Unset,
        user: Option::None,
        action: Option::None,
        parent: Option::None,
        status: StepStatus::NotRun,
        env: seq![],
    }
}

/// What `validate` reports of a step: one line per broken rule, empty when
/// the step is complete.
pub open spec fn validation_message(s: StepView) -> Seq<char> {
    (if s.name.len() == 0 { "Step name cannot be empty!\n"@ } else { seq![] })
    + (if s.description.len() == 0 { "Description cannot be empty!\n"@ } else { seq![] })
    + (if s.kind == StepType::Unset { "Step type must be specified!\n"@ } else { seq![] })
    + (if s.action is None { "Action must be specified!\n"@ } else { seq![] })
    + (if s.kind == StepType::Recovery && s.parent is None {
        "Recovery step must have parent!\n"@
    } else {
        seq![]
    })
}

/// A step is complete: named, described, of a set kind, with a command, and
/// with a parent when it is a recovery step.
pub open spec fn step_is_valid(s: StepView) -> bool {
    &&& s.name.len() > 0
    &&& s.description.len() > 0
    &&& s.kind != StepType::Unset
    &&& s.action is Some
    &&& (s.kind == StepType::Recovery ==> s.parent is Some)
}

impl Step {
    /// A step with every field empty; it fails `validate` until filled in.
    pub fn new_empty() -> (r: Step)
        ensures
            r@ == empty_step(),
    {
        let r = Step {
            step_name: String::new(),
            description: String::new(),
            step_type: StepType::Unset,
            user: None,
            action: None,
            parent: None,
            status: StepStatus::NotRun,
            envvars: Vec::new(),
        };
        proof {
            assert(pairs_view(r.envvars@) =~= seq![]);
        }
        r
    }

    /// Checks that the step has every mandatory field.
    pub fn validate(&self) -> (r: Result<(), String>)
        ensures
            r is Ok <==> step_is_valid(self@),
            r is Ok <==> validation_message(self@).len() == 0,
            r matches Err(e) ==> e@ == validation_message(self@),
    {
        proof {
            reveal_strlit("Step name cannot be empty!\n");
            reveal_strlit("Description cannot be empty!\n");
            reveal_strlit("Step type must be specified!\n");
            reveal_strlit("Action must be specified!\n");
            reveal_strlit("Recovery step must have parent!\n");
        }
        let mut err_msg = String::new();
        if self.step_name.as_str().is_empty() {
            err_msg.append("Step name cannot be empty!\n");
        }
        if self.description.as_str().is_empty() {
            err_msg.append("Description cannot be empty!\n");
        }
        if self.step_type == StepType::Unset {
            err_msg.append("Step type must be specified!\n");
        }
        if self.action.is_none() {
            err_msg.append("Action must be specified!\n");
        }
        if self.step_type == StepType::Recovery && self.parent.is_none() {
            err_msg.append("Recovery step must have parent!\n");
        }
        assert(err_msg@ =~= validation_message(self@));
        if err_msg.as_str().is_empty() {
            Ok(())
        } else {
            Err(err_msg)
        }
    }
}

/// A parsed plan: its id, the aggregate outcome and the ordered steps.
pub struct Plan {
    pub id: String,
    pub status: StepStatus,
    pub steps: Vec<Step>,
}

pub struct PlanView {
    pub id: Seq<char>,
    pub status: StepStatus,
    pub steps: Seq<StepView>,
}

pub open spec fn steps_view(v: Seq<Step>) -> Seq<StepView> {
    v.map_values(|s: Step| s@)
}

impl View for Plan {
    type V = PlanView;

    open spec fn view(&self) -> PlanView {
        PlanView { id: self.id@, status: self.status, steps: steps_view(self.steps@) }
    }
}

impl Plan {
    /// A plan that has not run yet.
    pub fn new(id: String, steps: Vec<Step>) -> (r: Plan)
        ensures
            r.id@ == id@,
            r.status == StepStatus::NotRun,
            r.steps@ == steps@,
    {
        Plan { id: id, status: StepStatus::NotRun, steps: steps }
    }
}

/// One captured output line of a step.
#[derive(Clone, Debug)]
pub struct StepOutput {
    pub time: String,
    pub text: String,
    pub out_type: StepOutputType,
}

} // verus!
