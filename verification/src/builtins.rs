//! The pure parts of the builtin commands: the text each one produces and the
//! decisions each one takes, kept apart from the process and file-system
//! effects that carry them out.

use crate::dispatch::lookup_spec;
use crate::dispatch::Builtin;
use crate::dispatch::DispatchMap;
use crate::parser::chars_to_string;
use crate::parser::split_chars;
use crate::parser::split_state;
use crate::parser::to_chars;
use vstd::prelude::*;
use vstd::string::StrSliceExecFns;
use vstd::string::StringExecFns;

verus! {

/// The arguments joined with single spaces.
pub open spec fn join_spaces(argv: Seq<Seq<char>>) -> Seq<char>
    decreases argv.len(),
{
    if argv.len() == 0 {
        Seq::empty()
    } else if argv.len() == 1 {
        argv[0]
    } else {
        join_spaces(argv.drop_last()) + seq![' '] + argv.last()
    }
}

/// What `echo` prints: its arguments joined with single spaces and a final
/// newline, or nothing at all when there are no arguments.
pub open spec fn echo_output(argv: Seq<Seq<char>>) -> Seq<char> {
    if argv.len() == 0 {
        Seq::empty()
    } else {
        join_spaces(argv) + seq!['\n']
    }
}

/// The `echo` builtin: joins its arguments with spaces, ending with a
/// newline; with no arguments it produces the empty string. Never fails.
pub fn handle_echo(args: &[String]) -> (r: Result<String, String>)
    ensures
        r matches Ok(out) && out@ == echo_output(args.deep_view()),
{
    let ghost dv = args.deep_view();
    if args.len() == 0 {
        let out = String::new();
        return Ok(out);
    }
    let mut res = args[0].clone();
    let n = args.len();
    let mut i: usize = 1;
    proof {
        assert(dv.subrange(0, 1)[0] == dv[0]);
        assert(res@ == join_spaces(dv.subrange(0, 1)));
    }
    while i < n
        invariant
            1 <= i <= n,
            n == args.len(),
            dv == args.deep_view(),
            res@ == join_spaces(dv.subrange(0, i as int)),
        decreases n - i,
    {
        res.append(" ");
        res.append(args[i].as_str());
        proof {
            reveal_strlit(" ");
            assert(" "@ =~= seq![' ']);
            assert(dv.subrange(0, i + 1 as int).drop_last() =~= dv.subrange(0, i as int));
            assert(dv.subrange(0, i + 1 as int).last() == dv[i as int]);
        }
        i = i + 1;
    }
    res.append("\n");
    proof {
        reveal_strlit("\n");
        assert("\n"@ =~= seq!['\n']);
        assert(dv.subrange(0, n as int) =~= dv);
    }
    Ok(res)
}

/// What the executable search reported for one name: whether a matching
/// executable file was found on the path, and at which full path.
pub struct ExecLookup {
    pub found: bool,
    pub path: String,
}

impl View for ExecLookup {
    type V = (bool, Seq<char>);

    open spec fn view(&self) -> (bool, Seq<char>) {
        (self.found, self.path@)
    }
}

impl DeepView for ExecLookup {
    type V = (bool, Seq<char>);

    open spec fn deep_view(&self) -> (bool, Seq<char>) {
        self.view()
    }
}

/// The line `type` prints for one name: a builtin is reported as such; else a
/// found executable is reported with its path; else the name is not found.
pub open spec fn type_line(
    table: Seq<(Seq<char>, Builtin)>,
    arg: Seq<char>,
    lk: (bool, Seq<char>),
) -> Seq<char> {
    if lookup_spec(table, arg) is Some {
        arg + " is shell builtin\n"@
    } else if lk.0 {
        arg + " is "@ + lk.1 + "\n"@
    } else {
        arg + ": not found\n"@
    }
}

/// What `type` prints: one line per argument, in order.
pub open spec fn type_output(
    table: Seq<(Seq<char>, Builtin)>,
    args: Seq<Seq<char>>,
    lks: Seq<(bool, Seq<char>)>,
) -> Seq<char>
    decreases args.len(),
{
    if args.len() == 0 {
        Seq::empty()
    } else {
        type_output(table, args.drop_last(), lks.drop_last()) + type_line(
            table,
            args.last(),
            lks.last(),
        )
    }
}

/// The `type` builtin: reports for each argument whether it is a builtin, an
/// executable on the path, or not found. The caller searches the path and
/// hands in one `ExecLookup` per argument. Never fails.
pub fn handle_type(map: &DispatchMap, args: &[String], lookups: &[ExecLookup]) -> (r: Result<
    String,
    String,
>)
    requires
        args@.len() == lookups@.len(),
    ensures
        r matches Ok(out) && out@ == type_output(map@, args.deep_view(), lookups.deep_view()),
{
    let ghost dv = args.deep_view();
    let ghost lv = lookups.deep_view();
    let mut res = String::new();
    let n = args.len();
    let mut i: usize = 0;
    proof {
        assert(dv.subrange(0, 0).len() == 0);
        assert(lv.subrange(0, 0).len() == 0);
    }
    while i < n
        invariant
            i <= n,
            n == args.len(),
            args@.len() == lookups@.len(),
            dv == args.deep_view(),
            lv == lookups.deep_view(),
            res@ == type_output(map@, dv.subrange(0, i as int), lv.subrange(0, i as int)),
        decreases n - i,
    {
        res.append(args[i].as_str());
        if map.contains(&args[i]) {
            res.append(" is shell builtin\n");
        } else if lookups[i].found {
            res.append(" is ");
            res.append(lookups[i].path.as_str());
            res.append("\n");
        } else {
            res.append(": not found\n");
        }
        proof {
            assert(dv.subrange(0, i + 1 as int).drop_last() =~= dv.subrange(0, i as int));
            assert(lv.subrange(0, i + 1 as int).drop_last() =~= lv.subrange(0, i as int));
            assert(dv.subrange(0, i + 1 as int).last() == dv[i as int]);
            assert(lv.subrange(0, i + 1 as int).last() == lv[i as int]);
        }
        i = i + 1;
    }
    proof {
        assert(dv.subrange(0, n as int) =~= dv);
        assert(lv.subrange(0, n as int) =~= lv);
    }
    Ok(res)
}

/// Whether a character is a decimal digit.
pub open spec fn is_digit(c: char) -> bool {
    48 <= c as u32 <= 57
}

pub open spec fn digit_val(c: char) -> int {
    c as u32 - 48
}

/// The value of a run of decimal digits, most significant first.
pub open spec fn digits_val(s: Seq<char>) -> int
    decreases s.len(),
{
    if s.len() == 0 {
        0
    } else {
        digits_val(s.drop_last()) * 10 + digit_val(s.last())
    }
}

/// A nonempty run of decimal digits.
pub open spec fn all_digits(s: Seq<char>) -> bool {
    s.len() > 0 && forall|i: int| 0 <= i < s.len() ==> is_digit(s[i])
}

/// What the standard decimal reading of a string yields: an optional leading
/// sign, then at least one digit and nothing else, with the value in range;
/// anything else reads as nothing.
pub open spec fn parse_i32_spec(s: Seq<char>) -> Option<i32> {
    if s.len() > 0 && (s[0] == '+' || s[0] == '-') {
        if all_digits(s.drop_first()) {
            let mag = digits_val(s.drop_first());
            let v = if s[0] == '-' {
                -mag
            } else {
                mag
            };
            if -0x8000_0000 <= v <= 0x7fff_ffff {
                Some(v as i32)
            } else {
                None
            }
        } else {
            None
        }
    } else if all_digits(s) {
        if digits_val(s) <= 0x7fff_ffff {
            Some(digits_val(s) as i32)
        } else {
            None
        }
    } else {
        None
    }
}

/// Reads a decimal integer with an optional leading sign: at least one digit,
/// digits only, value representable; otherwise nothing.
pub fn parse_i32(s: &str) -> (r: Option<i32>)
    ensures
        r == parse_i32_spec(s@),
{
    let chars = to_chars(s);
    let n = chars.len();
    if n == 0 {
        return None;
    }
    let c0 = chars[0];
    let neg = c0 == '-';
    let has_sign = c0 == '-' || c0 == '+';
    let start: usize = if has_sign {
        1
    } else {
        0
    };
    let ghost mag = if has_sign {
        s@.drop_first()
    } else {
        s@
    };
    proof {
        assert(mag.len() == n - start);
        assert(forall|j: int| 0 <= j < mag.len() ==> mag[j] == s@[j + start]);
    }
    if start >= n {
        return None;
    }
    let mut i: usize = start;
    let mut acc: u64 = 0;
    let mut too_big = false;
    while i < n
        invariant
            start <= i <= n,
            0 < n == s@.len(),
            start < n,
            chars@ == s@,
            neg == (s@[0] == '-'),
            has_sign == (s@[0] == '-' || s@[0] == '+'),
            start == (if has_sign {
                1usize
            } else {
                0usize
            }),
            mag == (if has_sign {
                s@.drop_first()
            } else {
                s@
            }),
            mag.len() == n - start,
            forall|j: int| 0 <= j < mag.len() ==> mag[j] == s@[j + start],
            forall|j: int| 0 <= j < i - start ==> is_digit(mag[j]),
            !too_big ==> acc <= 0x8000_0000 && acc as int == digits_val(
                mag.subrange(0, i - start),
            ),
            too_big ==> digits_val(mag.subrange(0, i - start)) > 0x8000_0000,
        decreases n - i,
    {
        let c = chars[i];
        let cu = #[verifier::truncate] (c as u32);
        if cu < 48 || cu > 57 {
            proof {
                assert(!is_digit(mag[i - start]));
                assert(!all_digits(mag));
            }
            return None;
        }
        let d: u64 = (cu - 48) as u64;
        proof {
            assert(mag.subrange(0, i + 1 - start).drop_last() =~= mag.subrange(0, i - start));
            assert(mag.subrange(0, i + 1 - start).last() == mag[i - start]);
            assert(mag[i - start] == c);
            assert(digit_val(c) == d as int);
        }
        if !too_big {
            acc = acc * 10 + d;
            if acc > 0x8000_0000 {
                too_big = true;
            }
        }
        i = i + 1;
    }
    proof {
        assert(mag.subrange(0, n - start) =~= mag);
        assert(all_digits(mag));
    }
    if too_big {
        return None;
    }
    if neg {
        let v: i64 = 0 - (acc as i64);
        Some(v as i32)
    } else {
        if acc > 0x7fff_ffff {
            None
        } else {
            Some(acc as i32)
        }
    }
}

/// The status `exit` terminates the process with: no argument, or an argument
/// that does not read as a decimal integer, gives 0.
pub open spec fn exit_status_spec(argv: Seq<Seq<char>>) -> i32 {
    if argv.len() == 0 {
        0
    } else {
        match parse_i32_spec(argv[0]) {
            Some(v) => v,
            None => 0,
        }
    }
}

/// The decision of the `exit` builtin: which status to terminate with. The
/// caller performs the termination itself.
pub fn exit_status(args: &[String]) -> (r: i32)
    ensures
        r == exit_status_spec(args.deep_view()),
{
    if args.len() == 0 {
        return 0;
    }
    proof {
        assert(args.deep_view()[0] == args@[0]@);
    }
    match parse_i32(args[0].as_str()) {
        Some(v) => v,
        None => 0,
    }
}

/// The decision of the `cd` builtin: where to go, or that the call is
/// ill-formed. The caller changes the directory itself.
pub enum CdTarget {
    /// No argument: stay in place.
    Stay,
    /// More than one argument: an error.
    TooManyArgs,
    /// The argument `~`: go to the user's home directory.
    Home,
    /// Any other single argument: go to that path.
    Path(String),
}

/// Classifies the arguments of `cd`: none means stay, more than one is an
/// error, `~` means home, and any other single argument is the path itself.
pub fn cd_target(args: &[String]) -> (r: CdTarget)
    ensures
        args@.len() == 0 ==> r is Stay,
        args@.len() > 1 ==> r is TooManyArgs,
        args@.len() == 1 && args@[0]@ == "~"@ ==> r is Home,
        args@.len() == 1 && args@[0]@ != "~"@ ==> (r matches CdTarget::Path(p) && p@
            == args@[0]@),
{
    if args.len() == 0 {
        return CdTarget::Stay;
    }
    if args.len() > 1 {
        return CdTarget::TooManyArgs;
    }
    let a = &args[0];
    proof {
        reveal_strlit("~");
    }
    if a.as_str().unicode_len() == 1 && a.as_str().get_char(0) == '~' {
        proof {
            assert(a@ =~= "~"@);
        }
        CdTarget::Home
    } else {
        proof {
            assert(a@ != "~"@) by {
                if a@ == "~"@ {
                    assert(a@.len() == 1 && a@[0] == '~');
                }
            }
        }
        CdTarget::Path(a.clone())
    }
}

/// Splits the search-path string at a separator into its directory entries.
pub fn split_paths(paths: &str, sep: char) -> (r: Vec<String>)
    ensures
        r.deep_view() == split_chars(paths@, sep),
{
    let chars = to_chars(paths);
    let n = chars.len();
    let mut pieces: Vec<String> = Vec::new();
    let mut buf: Vec<char> = Vec::new();
    let mut i: usize = 0;
    while i < n
        invariant
            i <= n,
            n == paths@.len(),
            chars@ == paths@,
            pieces.deep_view() == split_state(paths@.subrange(0, i as int), sep).0,
            buf@ == split_state(paths@.subrange(0, i as int), sep).1,
        decreases n - i,
    {
        let ghost st = split_state(paths@.subrange(0, i as int), sep);
        proof {
            assert(paths@.subrange(0, i + 1 as int).drop_last() =~= paths@.subrange(0, i as int));
            assert(paths@.subrange(0, i + 1 as int).last() == paths@[i as int]);
        }
        let c = chars[i];
        if c == sep {
            let piece = chars_to_string(&buf);
            let ghost before = pieces.deep_view();
            pieces.push(piece);
            buf = Vec::new();
            proof {
                assert(pieces.deep_view() =~~= before.push(st.1));
            }
        } else {
            buf.push(c);
        }
        i = i + 1;
    }
    proof {
        assert(paths@.subrange(0, n as int) =~= paths@);
    }
    let last = chars_to_string(&buf);
    let ghost before = pieces.deep_view();
    pieces.push(last);
    proof {
        assert(pieces.deep_view() =~~= before.push(split_state(paths@, sep).1));
    }
    pieces
}

/// The full path at which a command name would sit in one directory of the
/// search path: the directory, a slash, the name and the platform suffix.
pub fn candidate_path(dir: &str, name: &str, suffix: &str) -> (r: String)
    ensures
        r@ == dir@ + seq!['/'] + name@ + suffix@,
{
    let mut r = String::from_str(dir);
    r.append("/");
    r.append(name);
    r.append(suffix);
    proof {
        reveal_strlit("/");
        assert("/"@ =~= seq!['/']);
    }
    r
}

/// The message `cd` reports when given more than one argument.
pub fn cd_error_message() -> (r: String)
    ensures
        r@ == "cd: too many arguments"@,
{
    String::from_str("cd: too many arguments")
}

} // verus!
