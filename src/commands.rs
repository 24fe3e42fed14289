//! The text command protocol: a request is a verb and its options; the
//! answer is a text or an error.

use vstd::prelude::*;
use crate::clock::{decimal, push_decimal};
use crate::history::{file_text, archive_text, history_invariant, lines_of, History, RunEntry};
use crate::model::strings_view;
use crate::text::{chars_of, owned, parse_u64, parse_u64_spec, push_char, split_words, words};

verus! {

/// The commands of the protocol.
#[derive(Clone, Copy, Debug, PartialEq, Eq, Structural)]
pub enum Command {
    List,
    Exec,
    Status,
    Help,
    Plans,
    Dump,
}

pub open spec fn command_of(verb: Seq<char>) -> Option<Command> {
    if verb == "list"@ {
        Option::Some(Command::List)
    } else if verb == "exec"@ {
        Option::Some(Command::Exec)
    } else if verb == "status"@ {
        Option::Some(Command::Status)
    } else if verb == "help"@ {
        Option::Some(Command::Help)
    } else if verb == "plans"@ {
        Option::Some(Command::Plans)
    } else if verb == "dump"@ {
        Option::Some(Command::Dump)
    } else {
        Option::None
    }
}

fn same(a: &str, b: &str) -> (r: bool)
    ensures
        r == (a@ == b@),
{
    crate::text::eq_chars(&chars_of(a), &chars_of(b))
}

/// Picks the command that a verb names; an unknown verb is an error.
pub fn command_coordinator(verb: &str) -> (r: Result<Command, String>)
    ensures
        match command_of(verb@) {
            Option::Some(c) => r == Ok::<Command, String>(c),
            Option::None => r matches Err(e) && e@ == "Invalid command verb"@,
        },
{
    if same(verb, "list") {
        Ok(Command::List)
    } else if same(verb, "exec") {
        Ok(Command::Exec)
    } else if same(verb, "status") {
        Ok(Command::Status)
    } else if same(verb, "help") {
        Ok(Command::Help)
    } else if same(verb, "plans") {
        Ok(Command::Plans)
    } else if same(verb, "dump") {
        Ok(Command::Dump)
    } else {
        Err(owned("Invalid command verb"))
    }
}

/// Splits a request into its verb (its first word, or nothing) and its
/// options (the other words).
pub fn split_command(text: &str) -> (r: (String, Vec<String>))
    ensures
        words(text@).len() == 0 ==> r.0@ == Seq::<char>::empty() && r.1@.len() == 0,
        words(text@).len() > 0 ==> r.0@ == words(text@)[0] && strings_view(r.1@) == words(
            text@,
        ).drop_first(),
{
    let ws = split_words(&chars_of(text));
    let ghost all = words(text@);
    assert(all.len() == ws@.len());
    if ws.len() == 0 {
        return (String::new(), Vec::new());
    }
    let verb = crate::text::string_from(&ws[0], 0, ws[0].len());
    assert(ws@[0]@.subrange(0, ws@[0]@.len() as int) =~= ws@[0]@);
    let mut options: Vec<String> = Vec::new();
    let mut i: usize = 1;
    while i < ws.len()
        invariant
            1 <= i <= ws@.len(),
            all.len() == ws@.len(),
            all == ws@.map_values(|w: Vec<char>| w@),
            strings_view(options@) == all.subrange(1, i as int),
        decreases ws.len() - i,
    {
        let o = crate::text::string_from(&ws[i], 0, ws[i].len());
        assert(ws@[i as int]@.subrange(0, ws@[i as int]@.len() as int) =~= ws@[i as int]@);
        let ghost o0 = strings_view(options@);
        options.push(o);
        assert(strings_view(options@) =~= o0.push(o@));
        assert(all.subrange(1, i + 1) =~= all.subrange(1, i as int).push(all[i as int]));
        i = i + 1;
    }
    assert(all.subrange(1, ws@.len() as int) =~= all.drop_first());
    (verb, options)
}

pub open spec fn help_text() -> Seq<char> {
    "Possible actions:\n"@
        + "Retrieve list about plan sets:                 list \n"@
        + "Retrieve list about plan within a set:         list <plan-set>\n"@
        + "Retrive information about plan:                list <plan-set> <plan>\n"@
        + "Retrive details about plan:                    list -e <plan-set> <plan>\n"@
        + "List plan IDs:                                 plans\n"@
        + "Status of plan in historical data:             status <plan-id>\n"@
        + "Request to execute a plan:                     exec <plan-set> <plan>\n"@
        + "Dump log from memory:                          dump <plan-id> | dump all\n"@
}

/// The help text: one line per possible request.
pub fn help(_options: &Vec<String>) -> (r: Result<String, String>)
    ensures
        r matches Ok(t) && t@ == help_text(),
{
    let mut t = owned("Possible actions:\n");
    t.append("Retrieve list about plan sets:                 list \n");
    t.append("Retrieve list about plan within a set:         list <plan-set>\n");
    t.append("Retrive information about plan:                list <plan-set> <plan>\n");
    t.append("Retrive details about plan:                    list -e <plan-set> <plan>\n");
    t.append("List plan IDs:                                 plans\n");
    t.append("Status of plan in historical data:             status <plan-id>\n");
    t.append("Request to execute a plan:                     exec <plan-set> <plan>\n");
    t.append("Dump log from memory:                          dump <plan-id> | dump all\n");
    Ok(t)
}

/// What `status` answers for `options` on the registry `v`.
pub open spec fn status_answer(options: Seq<Seq<char>>, v: Seq<RunEntry>) -> Result<Seq<char>, Seq<char>> {
    if options.len() == 0 {
        Err("Plan ID is not specified"@)
    } else {
        match parse_u64_spec(options[0]) {
            Option::None => Err("Wrong plan ID is specified: "@ + options[0]),
            Option::Some(id) => {
                let found = if id <= u32::MAX { lines_of(v, id as u32) } else { Option::None };
                match found {
                    Option::None => Err("No status was found for this ID: "@ + decimal(id as nat)),
                    Option::Some(lines) => Ok(file_text(lines)),
                }
            },
        }
    }
}

/// The log of the run whose id is the first option, one line per log line.
pub fn status(options: &Vec<String>, history: &History) -> (r: Result<String, String>)
    requires
        history_invariant(history@),
    ensures
        match status_answer(strings_view(options@), history@) {
            Ok(t) => r matches Ok(s) && s@ == t,
            Err(e) => r matches Err(s) && s@ == e,
        },
{
    if options.len() == 0 {
        return Err(owned("Plan ID is not specified"));
    }
    match parse_u64(options[0].as_str()) {
        None => {
            let mut e = owned("Wrong plan ID is specified: ");
            e.append(options[0].as_str());
            Err(e)
        },
        Some(id) => {
            let found = if id <= u32::MAX as u64 { history.read(id as u32) } else { None };
            match found {
                None => {
                    let mut e = owned("No status was found for this ID: ");
                    push_decimal(&mut e, id);
                    Err(e)
                },
                Some(lines) => Ok(archive_text(&lines)),
            }
        },
    }
}

/// The ids of `v`, each followed by a newline.
pub open spec fn ids_text(v: Seq<RunEntry>) -> Seq<char>
    decreases v.len(),
{
    if v.len() == 0 {
        seq![]
    } else {
        ids_text(v.drop_last()) + decimal(v.last().id as nat) + seq!['\n']
    }
}

/// The ids of the runs held, one per line.
pub fn list_ids(_options: &Vec<String>, history: &History) -> (r: Result<String, String>)
    ensures
        r matches Ok(t) && t@ == ids_text(history@),
{
    let keys = history.list_ids();
    let ghost v = history@;
    let mut t = String::new();
    let mut i: usize = 0;
    while i < keys.len()
        invariant
            i <= keys@.len(),
            keys@.len() == v.len(),
            v == history@,
            forall|j: int| 0 <= j < keys@.len() ==> #[trigger] keys@[j].id == v[j].id,
            t@ == ids_text(v.take(i as int)),
        decreases keys.len() - i,
    {
        assert(v.take(i + 1).drop_last() =~= v.take(i as int));
        assert(keys@[i as int].id == v[i as int].id);
        push_decimal(&mut t, keys[i].id as u64);
        push_char(&mut t, '\n');
        i = i + 1;
    }
    assert(v.take(v.len() as int) =~= v);
    Ok(t)
}

} // verus!
