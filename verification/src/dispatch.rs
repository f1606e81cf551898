//! The dispatch table: an immutable map from command name to builtin,
//! consulted once per line after parsing. A name not in the table is reported
//! as not found.

use vstd::prelude::*;
use vstd::string::StringExecFns;

verus! {

/// The builtin commands the shell implements directly.
#[derive(Clone, Copy, PartialEq, Eq, Structural, Debug)]
pub enum Builtin {
    Exit,
    Echo,
    Type,
    Cd,
    Pwd,
}

/// One entry of the dispatch table.
pub struct BuiltinEntry {
    pub name: String,
    pub builtin: Builtin,
}

impl View for BuiltinEntry {
    type V = (Seq<char>, Builtin);

    open spec fn view(&self) -> (Seq<char>, Builtin) {
        (self.name@, self.builtin)
    }
}

impl DeepView for BuiltinEntry {
    type V = (Seq<char>, Builtin);

    open spec fn deep_view(&self) -> (Seq<char>, Builtin) {
        self.view()
    }
}

/// The first builtin bound to a name, scanning the table front to back.
pub open spec fn lookup_spec(table: Seq<(Seq<char>, Builtin)>, name: Seq<char>) -> Option<
    Builtin,
>
    decreases table.len(),
{
    if table.len() == 0 {
        None
    } else if table[0].0 == name {
        Some(table[0].1)
    } else {
        lookup_spec(table.drop_first(), name)
    }
}

/// A table from command name to builtin, built once and then only read.
pub struct DispatchMap {
    pub entries: Vec<BuiltinEntry>,
}

impl View for DispatchMap {
    type V = Seq<(Seq<char>, Builtin)>;

    open spec fn view(&self) -> Seq<(Seq<char>, Builtin)> {
        self.entries.deep_view()
    }
}

impl DispatchMap {
    /// An empty table: every lookup misses.
    pub fn new() -> (r: DispatchMap)
        ensures
            r@ == Seq::<(Seq<char>, Builtin)>::empty(),
    {
        let r = DispatchMap { entries: Vec::new() };
        proof {
            assert(r@ =~= Seq::<(Seq<char>, Builtin)>::empty());
        }
        r
    }

    /// Appends one binding at the end of the table.
    pub fn insert(&mut self, name: String, builtin: Builtin)
        ensures
            final(self)@ == old(self)@.push((name@, builtin)),
    {
        let ghost before = self@;
        self.entries.push(BuiltinEntry { name, builtin });
        proof {
            assert(self@ =~~= before.push((self.entries[self.entries.len() - 1].name@, builtin)));
        }
    }

    /// The builtin a name is bound to, if any.
    pub fn lookup(&self, name: &String) -> (r: Option<Builtin>)
        ensures
            r == lookup_spec(self@, name@),
    {
        let n = self.entries.len();
        let mut i: usize = 0;
        proof {
            assert(self@.skip(0) =~= self@);
        }
        while i < n
            invariant
                n == self.entries.len(),
                i <= n,
                lookup_spec(self@, name@) == lookup_spec(self@.skip(i as int), name@),
            decreases n - i,
        {
            if self.entries[i].name == *name {
                proof {
                    assert(self@.skip(i as int)[0] == self@[i as int]);
                }
                return Some(self.entries[i].builtin);
            }
            proof {
                assert(self@.skip(i as int)[0] == self@[i as int]);
                assert(self@.skip(i as int).drop_first() =~= self@.skip(i + 1 as int));
            }
            i = i + 1;
        }
        proof {
            assert(self@.skip(n as int).len() == 0);
        }
        None
    }

    /// Whether a name is bound in the table.
    pub fn contains(&self, name: &String) -> (r: bool)
        ensures
            r == (lookup_spec(self@, name@) is Some),
    {
        self.lookup(name).is_some()
    }
}

/// The shell's fixed table: the five builtins under their command names.
pub open spec fn builtin_table() -> Seq<(Seq<char>, Builtin)> {
    seq![
        ("exit"@, Builtin::Exit),
        ("echo"@, Builtin::Echo),
        ("type"@, Builtin::Type),
        ("cd"@, Builtin::Cd),
        ("pwd"@, Builtin::Pwd),
    ]
}

/// Builds the shell's fixed builtin table.
pub fn init_map() -> (r: DispatchMap)
    ensures
        r@ == builtin_table(),
{
    let mut r = DispatchMap::new();
    r.insert(String::from_str("exit"), Builtin::Exit);
    r.insert(String::from_str("echo"), Builtin::Echo);
    r.insert(String::from_str("type"), Builtin::Type);
    r.insert(String::from_str("cd"), Builtin::Cd);
    r.insert(String::from_str("pwd"), Builtin::Pwd);
    proof {
        assert(r@ =~~= builtin_table());
    }
    r
}

/// How one parsed line is to be handled.
pub enum DispatchOutcome {
    /// The line held no token at all: nothing to run.
    EmptyLine,
    /// The command name is bound to a builtin.
    Found(Builtin),
    /// The command name is bound to nothing; the message to report.
    NotFound(String),
}

/// Looks the command name (the first argument) up in the table and says how
/// the line is to be handled; an unbound name yields the not-found message.
pub fn dispatch(map: &DispatchMap, argv: &Vec<String>) -> (r: DispatchOutcome)
    ensures
        argv@.len() == 0 ==> r is EmptyLine,
        argv@.len() > 0 ==> match lookup_spec(map@, argv@[0]@) {
            Some(b) => r matches DispatchOutcome::Found(b2) && b2 == b,
            None => r matches DispatchOutcome::NotFound(msg) && msg@ == argv@[0]@
                + ": command not found"@,
        },
{
    if argv.len() == 0 {
        return DispatchOutcome::EmptyLine;
    }
    match map.lookup(&argv[0]) {
        Some(b) => DispatchOutcome::Found(b),
        None => {
            let mut msg = argv[0].clone();
            msg.append(": command not found");
            DispatchOutcome::NotFound(msg)
        },
    }
}

} // verus!
