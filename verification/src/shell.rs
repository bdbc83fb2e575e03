//! The console shell: what a received character does to the line being
//! typed, and which command a finished line names.
use vstd::prelude::*;

verus! {

/// The number of shell commands.
pub const SHELL_NUM: usize = 3;

/// The name of command `i`: "cmd", "mem", "lsof".
pub open spec fn command_name(i: int) -> Seq<char> {
    if i == 0 {
        seq!['c', 'm', 'd']
    } else if i == 1 {
        seq!['m', 'e', 'm']
    } else {
        seq!['l', 's', 'o', 'f']
    }
}

/// What a received value does: nothing (0), ends the line (carriage return
/// or line feed), or adds a character.
#[derive(Clone, Copy, PartialEq, Eq, Structural, Debug)]
pub enum ShellKey {
    Nothing,
    Enter,
    Char(u32),
}

/// What a finished line asks for.
#[derive(Clone, Copy, PartialEq, Eq, Structural, Debug)]
pub enum ShellCommand {
    Empty,
    Run(usize),
    NotFound,
}

/// The name of command `i`.
pub fn shell_command(i: usize) -> (r: Vec<char>)
    requires
        i < SHELL_NUM,
    ensures
        r@ == command_name(i as int),
{
    if i == 0 {
        vec!['c', 'm', 'd']
    } else if i == 1 {
        vec!['m', 'e', 'm']
    } else {
        vec!['l', 's', 'o', 'f']
    }
}

/// What the value `ch` read from the console does.
pub fn shell_key(ch: usize) -> (k: ShellKey)
    ensures
        ch == 0 ==> k == ShellKey::Nothing,
        ch == 13 || ch == 10 ==> k == ShellKey::Enter,
        ch != 0 && ch != 13 && ch != 10 ==> k == ShellKey::Char(ch as u32),
{
    if ch == 0 {
        ShellKey::Nothing
    } else if ch == 13 || ch == 10 {
        ShellKey::Enter
    } else {
        ShellKey::Char(ch as u32)
    }
}

fn same_chars(a: &[char], b: &Vec<char>) -> (r: bool)
    ensures
        r == (a@ == b@),
{
    if a.len() != b.len() {
        return false;
    }
    let mut i: usize = 0;
    while i < a.len()
        invariant
            a@.len() == b@.len(),
            i <= a@.len(),
            forall|j: int| 0 <= j < i ==> a@[j] == b@[j],
        decreases a@.len() - i,
    {
        if a[i] != b[i] {
            return false;
        }
        i = i + 1;
    }
    proof {
        assert(a@ =~= b@);
    }
    true
}

/// The command a finished line names: nothing for an empty line, else the
/// first command whose name is the line, or none found.
pub fn shell_prase(buff: &[char]) -> (c: ShellCommand)
    ensures
        buff@.len() == 0 ==> c == ShellCommand::Empty,
        buff@.len() > 0 ==> match c {
            ShellCommand::Run(i) => i < SHELL_NUM && buff@ == command_name(i as int) && forall|j: int|
                0 <= j < i ==> buff@ != #[trigger] command_name(j),
            ShellCommand::NotFound => forall|j: int| 0 <= j < SHELL_NUM ==> buff@ != #[trigger] command_name(j),
            ShellCommand::Empty => false,
        },
{
    if buff.len() == 0 {
        return ShellCommand::Empty;
    }
    let mut i: usize = 0;
    while i < SHELL_NUM
        invariant
            i <= SHELL_NUM,
            buff@.len() > 0,
            forall|j: int| 0 <= j < i ==> buff@ != #[trigger] command_name(j),
        decreases SHELL_NUM - i,
    {
        let cmd = shell_command(i);
        if same_chars(buff, &cmd) {
            return ShellCommand::Run(i);
        }
        i = i + 1;
    }
    ShellCommand::NotFound
}

} // verus!
