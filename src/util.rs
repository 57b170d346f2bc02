//! Small rules around the engine: answers to prompts, the user's name, where
//! the graveyard is, and whether renames may be tried.
use vstd::prelude::*;
use crate::paths::push_component;

pub use crate::naming::rename_grave;
pub use crate::paths::join_absolute;

verus! {

broadcast use vstd::string::group_string_axioms;

/// Lets a caller answer every prompt with yes, for runs without a terminal.
pub trait TestingMode {
    fn is_test(&self) -> bool;
}

/// Prompts are put to the user.
pub struct ProductionMode;

/// Prompts are answered yes without reading anything.
pub struct TestMode;

impl TestingMode for ProductionMode {
    fn is_test(&self) -> bool {
        false
    }
}

impl TestingMode for TestMode {
    fn is_test(&self) -> bool {
        true
    }
}

/// An answer that stops everything.
#[derive(Clone, Copy, PartialEq, Eq, Structural, Debug)]
pub enum PromptError {
    /// The user asked to quit.
    Quit,
}

/// The answer that the first byte read gives: `y` or `Y` is yes; `q` or `Q`
/// stops the whole run; anything else, and the end of input, is no.
pub fn yes_no_quit(first: Option<u8>) -> (r: Result<bool, PromptError>)
    ensures
        r == Ok::<bool, PromptError>(true) <==> (first == Some(0x79u8) || first == Some(0x59u8)),
        r is Err <==> (first == Some(0x71u8) || first == Some(0x51u8)),
        r is Err ==> r->Err_0 == PromptError::Quit,
{
    match first {
        Some(c) => {
            if c == 0x79u8 || c == 0x59u8 {
                Ok(true)
            } else if c == 0x71u8 || c == 0x51u8 {
                Err(PromptError::Quit)
            } else {
                Ok(false)
            }
        },
        None => Ok(false),
    }
}

/// What the user is shown when asked `prompt`.
pub fn prompt_text(prompt: &str) -> (r: String)
    ensures
        r@ == prompt@ + " (y/N) "@,
{
    let mut s = prompt.to_owned();
    s.append(" (y/N) ");
    s
}

/// The user's name from the variable that holds it, or `unknown`.
pub fn get_user(var: Option<String>) -> (r: String)
    ensures
        var is Some ==> r@ == var->0@,
        var is None ==> r@ == "unknown"@,
{
    match var {
        Some(v) => v,
        None => "unknown".to_owned(),
    }
}

/// Whether a rename may be tried before copying: unless the variable that
/// controls it is set to `false`.
pub fn allow_rename(var: Option<String>) -> (r: bool)
    ensures
        r == !(var is Some && var->0@ == "false"@),
{
    match var {
        Some(v) => !v.eq(&"false".to_owned()),
        None => true,
    }
}

/// The graveyard under a data directory: `graveyard` in it.
pub open spec fn data_graveyard(data: Seq<char>) -> Seq<char> {
    if data.len() > 0 && data.last() == '/' {
        data + "graveyard"@
    } else {
        data.push('/') + "graveyard"@
    }
}

/// Where the graveyard is: the path given as an option; else the one the
/// graveyard variable names; else `graveyard` in the user's data directory;
/// else `graveyard-<user>` in the directory for temporary files.
pub fn get_graveyard(
    flag: Option<String>,
    rip_graveyard: Option<String>,
    xdg_data_home: Option<String>,
    temp_dir: &str,
    user: &str,
) -> (r: String)
    ensures
        flag is Some ==> r@ == flag->0@,
        flag is None && rip_graveyard is Some ==> r@ == rip_graveyard->0@,
        flag is None && rip_graveyard is None && xdg_data_home is Some
            ==> r@ == data_graveyard(xdg_data_home->0@),
        flag is None && rip_graveyard is None && xdg_data_home is None
            ==> r@ == push_component(temp_dir@, "graveyard-"@ + user@),
{
    proof {
        reveal_strlit("/");
        reveal_strlit("graveyard");
    }
    if let Some(f) = flag {
        f
    } else if let Some(g) = rip_graveyard {
        g
    } else if let Some(mut d) = xdg_data_home {
        let n = d.as_str().unicode_len();
        let ends = n > 0 && d.as_str().get_char(n - 1) == '/';
        if !ends {
            d.append("/");
        }
        d.append("graveyard");
        d
    } else {
        let mut name = "graveyard-".to_owned();
        name.append(user);
        let n = temp_dir.unicode_len();
        let open = n == 0 || temp_dir.get_char(n - 1) == '/';
        let mut p = temp_dir.to_owned();
        if !open {
            p.append("/");
        }
        p.append(name.as_str());
        p
    }
}

} // verus!
