//! Checking a request for a new session, and working out how its process is launched.

use vstd::prelude::*;

use crate::error::RenderError;
use crate::protocol::{texts, CreateOrAttachParams};
use crate::text::{decimal, write_decimal};

verus! {

/// The most columns of a terminal.
pub const MAX_COLS: u16 = 1_024;

/// The most rows of a terminal.
pub const MAX_ROWS: u16 = 512;

/// The most visible cells of a terminal.
pub const MAX_CELLS: u32 = 500_000;

/// The terminal name where neither the request nor its environment gives one.
pub const FALLBACK_TERM: &'static str = "xterm-color";

/// A terminal's size in words.
pub open spec fn size_text(cols: u16, rows: u16) -> Seq<char> {
    decimal(cols as nat) + "x"@ + decimal(rows as nat)
}

/// Why a terminal cannot have this size, if it cannot.
pub open spec fn size_error(cols: u16, rows: u16) -> Option<Seq<char>> {
    if cols == 0 || rows == 0 {
        Some("invalid terminal size "@ + size_text(cols, rows))
    } else if cols > MAX_COLS || rows > MAX_ROWS || cols * rows > MAX_CELLS {
        Some(
            "terminal size "@ + size_text(cols, rows)
                + " is over the limit of 1024 columns, 512 rows and 500000 cells"@,
        )
    } else {
        None
    }
}

/// A terminal's size in words, behind some other words.
fn size_message(before: &str, cols: u16, rows: u16, after: &str) -> (message: String)
    ensures
        message@ == before@ + size_text(cols, rows) + after@,
{
    let mut message = before.to_owned();
    message.append(write_decimal(cols as u128).as_str());
    message.append("x");
    message.append(write_decimal(rows as u128).as_str());
    message.append(after);
    assert(message@ == before@ + size_text(cols, rows) + after@);
    message
}

/// Refuses a size that a terminal cannot have.
pub fn check_size(cols: u16, rows: u16) -> (result: Result<(), RenderError>)
    ensures
        match size_error(cols, rows) {
            Some(reason) => result matches Err(RenderError::BadRequest(text)) && text@ == reason,
            None => result is Ok,
        },
{
    if cols == 0 || rows == 0 {
        let message = size_message("invalid terminal size ", cols, rows, "");
        proof {
            reveal_strlit("");
            assert("invalid terminal size "@ + size_text(cols, rows) + ""@
                == "invalid terminal size "@ + size_text(cols, rows));
        }
        return Err(RenderError::BadRequest(message));
    }
    proof {
        assert(cols * rows <= 0xffff * 0xffff) by (nonlinear_arith)
            requires
                cols <= 0xffff,
                rows <= 0xffff,
        ;
    }
    if cols > MAX_COLS || rows > MAX_ROWS || cols as u32 * rows as u32 > MAX_CELLS {
        return Err(
            RenderError::BadRequest(
                size_message(
                    "terminal size ",
                    cols,
                    rows,
                    " is over the limit of 1024 columns, 512 rows and 500000 cells",
                ),
            ),
        );
    }
    Ok(())
}

/// The environment as plain texts.
pub open spec fn variables(env: Seq<(String, String)>) -> Seq<(Seq<char>, Seq<char>)> {
    Seq::new(env.len(), |i: int| (env[i].0@, env[i].1@))
}

/// The value of a variable, given by the last entry for it.
pub open spec fn variable(env: Seq<(Seq<char>, Seq<char>)>, name: Seq<char>) -> Option<Seq<char>>
    decreases env.len(),
{
    if env.len() == 0 {
        None
    } else if env.last().0 == name {
        Some(env.last().1)
    } else {
        variable(env.drop_last(), name)
    }
}

/// The terminal name that a process is given: the one of the request, else the one of its
/// environment, else the fallback.
pub open spec fn term_name(name: Seq<char>, env: Seq<(Seq<char>, Seq<char>)>) -> Seq<char> {
    if name.len() > 0 {
        name
    } else {
        match variable(env, "TERM"@) {
            Some(term) if term.len() > 0 => term,
            _ => FALLBACK_TERM@,
        }
    }
}

/// The whole environment of a process: nothing is inherited.
pub open spec fn launch_environment(
    cwd: Seq<char>,
    name: Seq<char>,
    env: Seq<(Seq<char>, Seq<char>)>,
) -> Seq<(Seq<char>, Seq<char>)> {
    let located = if cwd.len() > 0 {
        env.push(("PWD"@, cwd))
    } else {
        env
    };
    located.push(("TERM"@, term_name(name, env)))
}

/// How to launch the process of a session.
pub struct LaunchPlan {
    pub file: String,
    pub args: Vec<String>,
    /// Where the process starts, or `None` to leave that open.
    pub cwd: Option<String>,
    /// The whole environment; of two entries for one variable the later one counts.
    pub env: Vec<(String, String)>,
    pub cols: u16,
    pub rows: u16,
}

/// Why a request cannot be launched, if it cannot; the first reason counts.
pub open spec fn launch_error(params: CreateOrAttachParams, cwd_is_dir: bool) -> Option<Seq<char>> {
    if params.session_id@.len() == 0 {
        Some("sessionId is required"@)
    } else if params.file@.len() == 0 {
        Some("file is required"@)
    } else if size_error(params.cols, params.rows) is Some {
        size_error(params.cols, params.rows)
    } else if params.cwd@.len() > 0 && !cwd_is_dir {
        Some("cwd "@ + params.cwd@ + " is not a directory"@)
    } else {
        None
    }
}

fn find_variable<'a>(env: &'a Vec<(String, String)>, name: &String) -> (value: Option<&'a String>)
    ensures
        match (value, variable(variables(env@), name@)) {
            (Some(value), Some(named)) => value@ == named,
            (None, None) => true,
            _ => false,
        },
{
    let ghost all = variables(env@);
    let mut index: usize = env.len();
    assert(all.take(index as int) == all);
    while index > 0
        invariant
            index <= env@.len(),
            all == variables(env@),
            variable(all, name@) == variable(all.take(index as int), name@),
        decreases index,
    {
        index = index - 1;
        assert(all.take(index + 1).drop_last() == all.take(index as int));
        if env[index].0 == *name {
            return Some(&env[index].1);
        }
    }
    None
}

fn copy_strings(strings: &Vec<String>) -> (copy: Vec<String>)
    ensures
        texts(copy@) == texts(strings@),
{
    let mut copy: Vec<String> = Vec::new();
    let mut index: usize = 0;
    while index < strings.len()
        invariant
            index <= strings@.len(),
            copy@.len() == index,
            forall|i: int| 0 <= i < index ==> (#[trigger] copy@[i])@ == strings@[i]@,
        decreases strings@.len() - index,
    {
        copy.push(strings[index].clone());
        index = index + 1;
    }
    assert(texts(copy@) == texts(strings@));
    copy
}

fn copy_variables(env: &Vec<(String, String)>) -> (copy: Vec<(String, String)>)
    ensures
        variables(copy@) == variables(env@),
{
    let mut copy: Vec<(String, String)> = Vec::new();
    let mut index: usize = 0;
    while index < env.len()
        invariant
            index <= env@.len(),
            copy@.len() == index,
            forall|i: int|
                0 <= i < index ==> (#[trigger] copy@[i]).0@ == env@[i].0@ && copy@[i].1@
                    == env@[i].1@,
        decreases env@.len() - index,
    {
        copy.push((env[index].0.clone(), env[index].1.clone()));
        index = index + 1;
    }
    assert(variables(copy@) == variables(env@));
    copy
}

/// Whether a plan is the one for a request.
pub open spec fn is_plan_for(plan: LaunchPlan, params: CreateOrAttachParams) -> bool {
    &&& plan.file@ == params.file@
    &&& texts(plan.args@) == texts(params.args@)
    &&& plan.cwd is Some <==> params.cwd@.len() > 0
    &&& plan.cwd matches Some(cwd) ==> cwd@ == params.cwd@
    &&& variables(plan.env@) == launch_environment(
        params.cwd@,
        params.name@,
        variables(params.env@),
    )
    &&& plan.cols == params.cols && plan.rows == params.rows
}

/// Checks a request and works out how to launch its process. A directory that does not exist is
/// refused here, rather than left to a fallback.
pub fn plan(params: &CreateOrAttachParams, cwd_is_dir: bool) -> (result: Result<
    LaunchPlan,
    RenderError,
>)
    ensures
        match launch_error(*params, cwd_is_dir) {
            Some(reason) => result matches Err(RenderError::BadRequest(text)) && text@ == reason,
            None => result matches Ok(plan) && is_plan_for(plan, *params),
        },
{
    if params.session_id.as_str().is_empty() {
        return Err(RenderError::BadRequest("sessionId is required".to_owned()));
    }
    if params.file.as_str().is_empty() {
        return Err(RenderError::BadRequest("file is required".to_owned()));
    }
    match check_size(params.cols, params.rows) {
        Ok(()) => {},
        Err(error) => return Err(error),
    }
    let located = !params.cwd.as_str().is_empty();
    if located && !cwd_is_dir {
        let mut message = "cwd ".to_owned();
        message.append(params.cwd.as_str());
        message.append(" is not a directory");
        return Err(RenderError::BadRequest(message));
    }
    let ghost given = variables(params.env@);
    let mut env: Vec<(String, String)> = copy_variables(&params.env);
    if located {
        env.push(("PWD".to_owned(), params.cwd.clone()));
        assert(variables(env@) == given.push(("PWD"@, params.cwd@)));
    }
    let ghost before = variables(env@);
    let term: String = if !params.name.as_str().is_empty() {
        params.name.clone()
    } else {
        match find_variable(&params.env, &"TERM".to_owned()) {
            Some(term) => if term.as_str().is_empty() {
                FALLBACK_TERM.to_owned()
            } else {
                term.clone()
            },
            None => FALLBACK_TERM.to_owned(),
        }
    };
    env.push(("TERM".to_owned(), term));
    assert(variables(env@) == before.push(("TERM"@, term_name(params.name@, given))));
    Ok(
        LaunchPlan {
            file: params.file.clone(),
            args: copy_strings(&params.args),
            cwd: if located {
                Some(params.cwd.clone())
            } else {
                None
            },
            env,
            cols: params.cols,
            rows: params.rows,
        },
    )
}

/// A process gets the variables of the request, the directory it starts in as `PWD` where one is
/// given, and its terminal name as `TERM`; nothing else.
pub proof fn law_environment_is_the_requests(
    cwd: Seq<char>,
    name: Seq<char>,
    env: Seq<(Seq<char>, Seq<char>)>,
    key: Seq<char>,
)
    ensures
        variable(launch_environment(cwd, name, env), key) == (if key == "TERM"@ {
            Some(term_name(name, env))
        } else if key == "PWD"@ && cwd.len() > 0 {
            Some(cwd)
        } else {
            variable(env, key)
        }),
{
    let located = if cwd.len() > 0 {
        env.push(("PWD"@, cwd))
    } else {
        env
    };
    let whole = launch_environment(cwd, name, env);
    assert(whole.drop_last() == located);
    assert(cwd.len() > 0 ==> located.drop_last() == env);
    assert(variable(whole, key) == (if key == "TERM"@ {
        Some(term_name(name, env))
    } else {
        variable(located, key)
    }));
}

/// At which step launching a process failed, and what the system said.
pub enum LaunchFailure {
    OpenPty(String),
    Command(String),
    Reader(String),
    Writer(String),
    ReaderThread(String),
    ExitThread(String),
}

impl LaunchFailure {
    /// The failure in words.
    pub open spec fn text(&self, file: Seq<char>) -> Seq<char> {
        match *self {
            LaunchFailure::OpenPty(error) => "openpty failed: "@ + error@,
            LaunchFailure::Command(error) => "spawn "@ + file + " failed: "@ + error@,
            LaunchFailure::Reader(error) => "pty reader failed: "@ + error@,
            LaunchFailure::Writer(error) => "pty writer failed: "@ + error@,
            LaunchFailure::ReaderThread(error) => "reader thread failed: "@ + error@,
            LaunchFailure::ExitThread(error) => "exit thread failed: "@ + error@,
        }
    }

    /// Whether a process is already there, and must be killed.
    pub open spec fn leaves_process(&self) -> bool {
        !(self is OpenPty || self is Command)
    }

    /// Whether a process is already there, and must be killed.
    pub fn must_kill(&self) -> (must: bool)
        ensures
            must == self.leaves_process(),
    {
        match self {
            LaunchFailure::OpenPty(_) => false,
            LaunchFailure::Command(_) => false,
            _ => true,
        }
    }

    /// The error for the client.
    pub fn into_error(self, file: &str) -> (error: RenderError)
        ensures
            error matches RenderError::Spawn(text) && text@ == self.text(file@),
    {
        let (before, middle, after, error) = match self {
            LaunchFailure::OpenPty(error) => ("openpty failed: ", "", "", error),
            LaunchFailure::Command(error) => ("spawn ", file, " failed: ", error),
            LaunchFailure::Reader(error) => ("pty reader failed: ", "", "", error),
            LaunchFailure::Writer(error) => ("pty writer failed: ", "", "", error),
            LaunchFailure::ReaderThread(error) => ("reader thread failed: ", "", "", error),
            LaunchFailure::ExitThread(error) => ("exit thread failed: ", "", "", error),
        };
        let mut message = before.to_owned();
        message.append(middle);
        message.append(after);
        message.append(error.as_str());
        proof {
            reveal_strlit("");
            assert(before@ + ""@ + ""@ == before@);
            assert(message@ == self.text(file@));
        }
        RenderError::Spawn(message)
    }
}

} // verus!
