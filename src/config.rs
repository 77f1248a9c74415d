use vstd::prelude::*;

use crate::text::chars_of;

verus! {

/// What to do with identities or workspaces.
#[derive(Debug, PartialEq, Eq)]
pub enum Operation {
    List,
    Add(String),
    Remove(usize),
}

/// A command given on the command line.
#[derive(Debug, PartialEq, Eq)]
pub enum Command {
    Identity(Operation),
    Workspace(Operation),
    Swap(usize),
    Current,
    Check,
}

/// A command with the store's location and the working directory.
#[derive(Debug)]
pub struct Config {
    pub command: Command,
    pub config: String,
    pub pwd: String,
}

/// Why the command-line words make no command.
#[derive(Debug, PartialEq, Eq)]
pub enum ArgError {
    NoArguments,
    NoOperation,
    NoValue,
    NoIndex,
    InvalidNumber,
    UnknownCommand(String),
}

/// An `Operation` as a value of the specification.
pub enum OperationModel {
    List,
    Add(Seq<char>),
    Remove(usize),
}

/// A `Command` as a value of the specification.
pub enum CommandModel {
    Identity(OperationModel),
    Workspace(OperationModel),
    Swap(usize),
    Current,
    Check,
}

/// An `ArgError` as a value of the specification.
pub enum ArgErrorModel {
    NoArguments,
    NoOperation,
    NoValue,
    NoIndex,
    InvalidNumber,
    UnknownCommand(Seq<char>),
}

impl View for Operation {
    type V = OperationModel;

    open spec fn view(&self) -> OperationModel {
        match self {
            Operation::List => OperationModel::List,
            Operation::Add(s) => OperationModel::Add(s@),
            Operation::Remove(i) => OperationModel::Remove(*i),
        }
    }
}

impl View for Command {
    type V = CommandModel;

    open spec fn view(&self) -> CommandModel {
        match self {
            Command::Identity(o) => CommandModel::Identity(o@),
            Command::Workspace(o) => CommandModel::Workspace(o@),
            Command::Swap(i) => CommandModel::Swap(*i),
            Command::Current => CommandModel::Current,
            Command::Check => CommandModel::Check,
        }
    }
}

impl View for ArgError {
    type V = ArgErrorModel;

    open spec fn view(&self) -> ArgErrorModel {
        match self {
            ArgError::NoArguments => ArgErrorModel::NoArguments,
            ArgError::NoOperation => ArgErrorModel::NoOperation,
            ArgError::NoValue => ArgErrorModel::NoValue,
            ArgError::NoIndex => ArgErrorModel::NoIndex,
            ArgError::InvalidNumber => ArgErrorModel::InvalidNumber,
            ArgError::UnknownCommand(s) => ArgErrorModel::UnknownCommand(s@),
        }
    }
}

/// An ASCII decimal digit.
pub open spec fn is_digit(c: char) -> bool {
    '0' <= c && c <= '9'
}

/// The number that the decimal digits `s` write.
pub open spec fn digits_value(s: Seq<char>) -> int
    decreases s.len(),
{
    if s.len() == 0 {
        0
    } else {
        digits_value(s.drop_last()) * 10 + (s.last() as int - '0' as int)
    }
}

/// `s` without one leading `+`.
pub open spec fn unsigned_part(s: Seq<char>) -> Seq<char> {
    if s.len() > 0 && s[0] == '+' {
        s.drop_first()
    } else {
        s
    }
}

/// The `usize` that `s` writes in decimal, with an optional leading `+`, as
/// `str::parse::<usize>` reads it.
pub open spec fn usize_of(s: Seq<char>) -> Option<usize> {
    let d = unsigned_part(s);
    if d.len() > 0 && (forall|i: int| 0 <= i < d.len() ==> is_digit(#[trigger] d[i]))
        && digits_value(d) <= usize::MAX {
        Some(digits_value(d) as usize)
    } else {
        None
    }
}

/// The operation that the words `args` give.
pub open spec fn operation_of(args: Seq<Seq<char>>) -> Result<OperationModel, ArgErrorModel> {
    if args.len() == 0 {
        Err(ArgErrorModel::NoOperation)
    } else if args[0] == "list"@ {
        Ok(OperationModel::List)
    } else if args[0] == "add"@ {
        if args.len() < 2 {
            Err(ArgErrorModel::NoValue)
        } else {
            Ok(OperationModel::Add(args[1]))
        }
    } else if args[0] == "remove"@ {
        if args.len() < 2 {
            Err(ArgErrorModel::NoIndex)
        } else {
            match usize_of(args[1]) {
                Some(n) => Ok(OperationModel::Remove(n)),
                None => Err(ArgErrorModel::InvalidNumber),
            }
        }
    } else {
        Err(ArgErrorModel::UnknownCommand(args[0]))
    }
}

/// The command that the words `args` give.
pub open spec fn command_of(args: Seq<Seq<char>>) -> Result<CommandModel, ArgErrorModel> {
    if args.len() == 0 {
        Err(ArgErrorModel::NoArguments)
    } else if args[0] == "identity"@ {
        match operation_of(args.drop_first()) {
            Ok(o) => Ok(CommandModel::Identity(o)),
            Err(e) => Err(e),
        }
    } else if args[0] == "workspace"@ {
        match operation_of(args.drop_first()) {
            Ok(o) => Ok(CommandModel::Workspace(o)),
            Err(e) => Err(e),
        }
    } else if args[0] == "swap"@ {
        if args.len() < 2 {
            Err(ArgErrorModel::NoIndex)
        } else {
            match usize_of(args[1]) {
                Some(n) => Ok(CommandModel::Swap(n)),
                None => Err(ArgErrorModel::InvalidNumber),
            }
        }
    } else if args[0] == "current"@ {
        Ok(CommandModel::Current)
    } else if args[0] == "check"@ {
        Ok(CommandModel::Check)
    } else {
        Err(ArgErrorModel::UnknownCommand(args[0]))
    }
}

/// The characters of each of `args`.
pub open spec fn words(args: Seq<String>) -> Seq<Seq<char>> {
    args.map_values(|s: String| s@)
}

/// A parse result with its value or error seen as a specification value.
pub open spec fn result_view<T: View>(r: Result<T, ArgError>) -> Result<T::V, ArgErrorModel> {
    match r {
        Ok(v) => Ok(v@),
        Err(e) => Err(e@),
    }
}

/// Over decimal digits, a longer prefix writes a number no smaller.
proof fn lemma_digits_grow(s: Seq<char>, n: int)
    requires
        0 <= n <= s.len(),
        forall|i: int| 0 <= i < s.len() ==> is_digit(#[trigger] s[i]),
    ensures
        digits_value(s) >= digits_value(s.take(n)),
        digits_value(s.take(n)) >= 0,
    decreases s.len(),
{
    if n < s.len() {
        assert(s.drop_last().take(n) =~= s.take(n));
        lemma_digits_grow(s.drop_last(), n);
        assert(forall|i: int|
            0 <= i < s.drop_last().len() ==> is_digit(#[trigger] s.drop_last()[i]));
    } else {
        assert(s.take(n) =~= s);
        if s.len() > 0 {
            lemma_digits_grow(s.drop_last(), s.len() - 1);
            assert(s.drop_last().take(s.len() - 1) =~= s.drop_last());
        }
    }
}

/// The `usize` that `s` writes in decimal, with an optional leading `+`.
pub fn parse_usize(s: &str) -> (r: Option<usize>)
    ensures
        r == usize_of(s@),
{
    let cs = chars_of(s);
    let mut i: usize = 0;
    if cs.len() > 0 && cs[0] == '+' {
        i = 1;
    }
    let ghost d = unsigned_part(s@);
    assert(d =~= s@.subrange(i as int, s@.len() as int));
    if i >= cs.len() {
        return None;
    }
    let start = i;
    let mut acc: usize = 0;
    while i < cs.len()
        invariant
            cs@ == s@,
            d == unsigned_part(s@),
            d == cs@.subrange(start as int, cs@.len() as int),
            start <= i <= cs@.len(),
            forall|k: int| 0 <= k < i - start ==> is_digit(#[trigger] d[k]),
            acc == digits_value(d.take(i - start)),
        decreases cs@.len() - i,
    {
        let c = cs[i];
        let ghost pre = d.take(i - start);
        assert(d.take(i - start + 1).drop_last() =~= pre);
        assert(d[i - start] == c);
        if c < '0' || c > '9' {
            assert(!is_digit(d[i - start]));
            return None;
        }
        let digit = (c as u32 - '0' as u32) as usize;
        assert(digits_value(d.take(i - start + 1)) == acc * 10 + digit);
        if acc > (usize::MAX - digit) / 10 {
            proof {
                assert(acc * 10 + digit > usize::MAX) by (nonlinear_arith)
                    requires
                        acc > (usize::MAX - digit) / 10,
                        digit <= 9,
                ;
                if forall|j: int| 0 <= j < d.len() ==> is_digit(#[trigger] d[j]) {
                    lemma_digits_grow(d, i - start + 1);
                    assert(digits_value(d) > usize::MAX);
                }
            }
            return None;
        }
        acc = acc * 10 + digit;
        i = i + 1;
    }
    assert(d.take(i - start) =~= d);
    Some(acc)
}

/// Whether `w` is the word `lit`.
fn word_is(w: &String, lit: &str) -> (r: bool)
    ensures
        r == (w@ == lit@),
{
    let l = lit.to_owned();
    *w == l
}

impl Operation {
    /// The operation that the words `value` give ("list", "add <value>",
    /// "remove <index>").
    pub fn try_from(value: Vec<String>) -> (r: Result<Operation, ArgError>)
        ensures
            result_view(r) == operation_of(words(value@)),
    {
        let mut args = value;
        let ghost ws = words(args@);
        if args.len() == 0 {
            return Err(ArgError::NoOperation);
        }
        assert(ws[0] == args@[0]@);
        let cmd = args.remove(0);
        assert(words(args@) =~= ws.drop_first());
        if word_is(&cmd, "list") {
            Ok(Operation::List)
        } else if word_is(&cmd, "add") {
            if args.len() == 0 {
                return Err(ArgError::NoValue);
            }
            assert(ws[1] == args@[0]@);
            let name = args.remove(0);
            Ok(Operation::Add(name))
        } else if word_is(&cmd, "remove") {
            if args.len() == 0 {
                return Err(ArgError::NoIndex);
            }
            assert(ws[1] == args@[0]@);
            let num = args.remove(0);
            match parse_usize(num.as_str()) {
                Some(n) => Ok(Operation::Remove(n)),
                None => Err(ArgError::InvalidNumber),
            }
        } else {
            Err(ArgError::UnknownCommand(cmd))
        }
    }
}

impl Command {
    /// The command that the words `value` give ("identity ...", "workspace ...",
    /// "swap <index>", "current", "check").
    pub fn try_from(value: Vec<String>) -> (r: Result<Command, ArgError>)
        ensures
            result_view(r) == command_of(words(value@)),
    {
        let mut args = value;
        let ghost ws = words(args@);
        if args.len() == 0 {
            return Err(ArgError::NoArguments);
        }
        assert(ws[0] == args@[0]@);
        let cmd = args.remove(0);
        assert(words(args@) =~= ws.drop_first());
        if word_is(&cmd, "identity") {
            match Operation::try_from(args) {
                Ok(op) => Ok(Command::Identity(op)),
                Err(e) => Err(e),
            }
        } else if word_is(&cmd, "workspace") {
            match Operation::try_from(args) {
                Ok(op) => Ok(Command::Workspace(op)),
                Err(e) => Err(e),
            }
        } else if word_is(&cmd, "swap") {
            if args.len() == 0 {
                return Err(ArgError::NoIndex);
            }
            assert(ws[1] == args@[0]@);
            let num = args.remove(0);
            match parse_usize(num.as_str()) {
                Some(n) => Ok(Command::Swap(n)),
                None => Err(ArgError::InvalidNumber),
            }
        } else if word_is(&cmd, "current") {
            Ok(Command::Current)
        } else if word_is(&cmd, "check") {
            Ok(Command::Check)
        } else {
            Err(ArgError::UnknownCommand(cmd))
        }
    }
}

} // verus!
