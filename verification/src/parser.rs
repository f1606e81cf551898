//! The line tokenizer: one left-to-right scan over the characters of a raw
//! input line, producing an argument vector and a list of redirection
//! directives. The scan is modeled by a small spec-level state machine
//! (`ParserState`, `step`, `scan_from`), and the executable scanner is proved
//! to follow it character for character.

use vstd::prelude::*;
use vstd::string::StrSliceExecFns;
use vstd::string::StringExecFns;

verus! {

/// Which quoting region the scan is currently inside.
#[derive(Clone, Copy, PartialEq, Eq, Structural, Debug)]
pub enum QuoteMode {
    Unquoted,
    Single,
    Double,
}

/// The one way a line can be malformed: it ended inside a quoted region.
#[derive(Clone, Copy, PartialEq, Eq, Structural, Debug)]
pub enum ParseError {
    UnclosedQuote,
}

impl ParseError {
    /// The message reported to the user for this error.
    pub fn message(&self) -> (r: String)
        ensures
            r@ == "unclosed quotes"@,
    {
        String::from_str("unclosed quotes")
    }
}

/// A redirection directive: which stream to redirect, whether to append
/// rather than truncate, and the target path.
pub struct RedirectOpt {
    pub is_stderr: bool,
    pub is_append: bool,
    pub path: String,
}

/// The mathematical image of a `RedirectOpt`.
#[verifier::ext_equal]
pub struct RedirSpec {
    pub is_stderr: bool,
    pub is_append: bool,
    pub path: Seq<char>,
}

impl View for RedirectOpt {
    type V = RedirSpec;

    open spec fn view(&self) -> RedirSpec {
        RedirSpec { is_stderr: self.is_stderr, is_append: self.is_append, path: self.path@ }
    }
}

impl DeepView for RedirectOpt {
    type V = RedirSpec;

    open spec fn deep_view(&self) -> RedirSpec {
        self.view()
    }
}

/// Recognizes the six redirection operator tokens. The pair is
/// (targets stderr, appends); `None` means the token is no operator.
pub open spec fn classify(tok: Seq<char>) -> Option<(bool, bool)> {
    if tok == seq!['>'] || tok == seq!['1', '>'] {
        Some((false, false))
    } else if tok == seq!['>', '>'] || tok == seq!['1', '>', '>'] {
        Some((false, true))
    } else if tok == seq!['2', '>'] {
        Some((true, false))
    } else if tok == seq!['2', '>', '>'] {
        Some((true, true))
    } else {
        None
    }
}

pub open spec fn mk_redir(op: (bool, bool), path: Seq<char>) -> RedirSpec {
    RedirSpec { is_stderr: op.0, is_append: op.1, path: path }
}

/// The scan's whole state between two characters of one line.
#[verifier::ext_equal]
pub struct ParserState {
    /// Tokens already emitted as plain arguments.
    pub args: Seq<Seq<char>>,
    /// Directives already completed.
    pub redirs: Seq<RedirSpec>,
    /// A redirection operator waiting for its target token.
    pub pending: Option<(bool, bool)>,
    /// The quoting region the scan is inside.
    pub quote: QuoteMode,
    /// Whether a backslash has made the next character literal.
    pub escape: bool,
    /// The token collected so far.
    pub buf: Seq<char>,
}

pub open spec fn init_state() -> ParserState {
    ParserState {
        args: Seq::empty(),
        redirs: Seq::empty(),
        pending: None,
        quote: QuoteMode::Unquoted,
        escape: false,
        buf: Seq::empty(),
    }
}

/// What closing the current token at an unquoted space does to the state: an
/// empty buffer emits nothing; a token that completes a pending directive
/// becomes its target; a token that is itself a redirection operator starts a
/// pending directive; any other token joins the argument vector.
pub open spec fn close_token(st: ParserState) -> ParserState {
    if st.buf.len() == 0 {
        st
    } else {
        match st.pending {
            Some(op) => ParserState {
                redirs: st.redirs.push(mk_redir(op, st.buf)),
                pending: None,
                buf: Seq::empty(),
                ..st
            },
            None => match classify(st.buf) {
                Some(op) => ParserState { pending: Some(op), buf: Seq::empty(), ..st },
                None => ParserState { args: st.args.push(st.buf), buf: Seq::empty(), ..st },
            },
        }
    }
}

/// One character of the scan, in the priority order of the quoting rules:
/// single quotes are fully literal; double quotes escape only `$`, `"` and
/// `\`; unquoted backslash makes the next character literal; an unquoted
/// space closes the token.
pub open spec fn step(st: ParserState, c: char) -> ParserState {
    match st.quote {
        QuoteMode::Single => if c == '\'' {
            ParserState { quote: QuoteMode::Unquoted, ..st }
        } else {
            ParserState { buf: st.buf.push(c), ..st }
        },
        QuoteMode::Double => if st.escape {
            if c == '$' || c == '"' || c == '\\' {
                ParserState { escape: false, buf: st.buf.push(c), ..st }
            } else {
                ParserState { escape: false, buf: st.buf.push('\\').push(c), ..st }
            }
        } else if c == '"' {
            ParserState { quote: QuoteMode::Unquoted, ..st }
        } else if c == '\\' {
            ParserState { escape: true, ..st }
        } else {
            ParserState { buf: st.buf.push(c), ..st }
        },
        QuoteMode::Unquoted => if st.escape {
            ParserState { escape: false, buf: st.buf.push(c), ..st }
        } else if c == '"' {
            ParserState { quote: QuoteMode::Double, ..st }
        } else if c == '\'' {
            ParserState { quote: QuoteMode::Single, ..st }
        } else if c == '\\' {
            ParserState { escape: true, ..st }
        } else if c == ' ' {
            close_token(st)
        } else {
            ParserState { buf: st.buf.push(c), ..st }
        },
    }
}

/// Runs the scan over a sequence of characters, starting from a given state.
pub open spec fn scan_from(st: ParserState, line: Seq<char>) -> ParserState
    decreases line.len(),
{
    if line.len() == 0 {
        st
    } else {
        step(scan_from(st, line.drop_last()), line.last())
    }
}

/// End of input: the last token is closed exactly as a space would close it,
/// and an operator still waiting for its target emits a directive with an
/// empty target path.
pub open spec fn finish(st: ParserState) -> (Seq<Seq<char>>, Seq<RedirSpec>) {
    let closed = close_token(st);
    match closed.pending {
        Some(op) => (closed.args, closed.redirs.push(mk_redir(op, Seq::empty()))),
        None => (closed.args, closed.redirs),
    }
}

/// The whole parse of one line, as a mathematical function.
pub open spec fn parse_spec(line: Seq<char>) -> Result<
    (Seq<Seq<char>>, Seq<RedirSpec>),
    ParseError,
> {
    let st = scan_from(init_state(), line);
    if st.quote == QuoteMode::Unquoted {
        Ok(finish(st))
    } else {
        Err(ParseError::UnclosedQuote)
    }
}

/// Collects the characters of a string slice into a vector.
pub fn to_chars(s: &str) -> (r: Vec<char>)
    ensures
        r@ == s@,
{
    let n = s.unicode_len();
    let mut r: Vec<char> = Vec::new();
    let mut i: usize = 0;
    while i < n
        invariant
            n == s@.len(),
            i <= n,
            r@ == s@.subrange(0, i as int),
        decreases n - i,
    {
        r.push(s.get_char(i));
        i = i + 1;
        proof {
            assert(r@ =~= s@.subrange(0, i as int));
        }
    }
    proof {
        assert(r@ =~= s@);
    }
    r
}

/// Relies on `String: FromIterator<char>`: collecting an iterator of
/// characters yields the string of exactly those characters in order.
#[verifier::external_body]
pub(crate) fn chars_to_string(v: &Vec<char>) -> (r: String)
    ensures
        r@ == v@,
{
    v.iter().collect()
}

/// Executable form of `classify`, on a token held as a character vector.
fn classify_chars(tok: &Vec<char>) -> (r: Option<(bool, bool)>)
    ensures
        r == classify(tok@),
{
    let n = tok.len();
    if n == 1 && tok[0] == '>' {
        proof {
            assert(tok@ =~= seq!['>']);
        }
        Some((false, false))
    } else if n == 2 && tok[0] == '1' && tok[1] == '>' {
        proof {
            assert(tok@ =~= seq!['1', '>']);
        }
        Some((false, false))
    } else if n == 2 && tok[0] == '>' && tok[1] == '>' {
        proof {
            assert(tok@ =~= seq!['>', '>']);
        }
        Some((false, true))
    } else if n == 3 && tok[0] == '1' && tok[1] == '>' && tok[2] == '>' {
        proof {
            assert(tok@ =~= seq!['1', '>', '>']);
        }
        Some((false, true))
    } else if n == 2 && tok[0] == '2' && tok[1] == '>' {
        proof {
            assert(tok@ =~= seq!['2', '>']);
        }
        Some((true, false))
    } else if n == 3 && tok[0] == '2' && tok[1] == '>' && tok[2] == '>' {
        proof {
            assert(tok@ =~= seq!['2', '>', '>']);
        }
        Some((true, true))
    } else {
        proof {
            assert(classify(tok@) is None) by {
                if tok@ == seq!['>'] {
                    assert(tok@.len() == 1 && tok@[0] == '>');
                } else if tok@ == seq!['1', '>'] {
                    assert(tok@.len() == 2 && tok@[0] == '1' && tok@[1] == '>');
                } else if tok@ == seq!['>', '>'] {
                    assert(tok@.len() == 2 && tok@[0] == '>' && tok@[1] == '>');
                } else if tok@ == seq!['1', '>', '>'] {
                    assert(tok@.len() == 3 && tok@[0] == '1' && tok@[1] == '>' && tok@[2] == '>');
                } else if tok@ == seq!['2', '>'] {
                    assert(tok@.len() == 2 && tok@[0] == '2' && tok@[1] == '>');
                } else if tok@ == seq!['2', '>', '>'] {
                    assert(tok@.len() == 3 && tok@[0] == '2' && tok@[1] == '>' && tok@[2] == '>');
                }
            }
        }
        None
    }
}

/// Classifies a token string: the six operator strings give `Some` directive
/// with an empty target path, anything else gives `None`.
pub fn is_redirect(flag: &str) -> (r: Option<RedirectOpt>)
    ensures
        match classify(flag@) {
            Some(op) => r matches Some(o) && o.is_stderr == op.0 && o.is_append == op.1
                && o.path@ == Seq::<char>::empty(),
            None => r is None,
        },
{
    let chars = to_chars(flag);
    match classify_chars(&chars) {
        Some((stderr, append)) => Some(
            RedirectOpt { is_stderr: stderr, is_append: append, path: String::new() },
        ),
        None => None,
    }
}

/// Splits one raw input line into its argument vector and its redirection
/// directives, by the quoting and escaping rules of `step`, failing exactly
/// when the line ends inside a quoted region.
pub fn parse_args(args: String) -> (r: Result<(Vec<String>, Vec<RedirectOpt>), ParseError>)
    ensures
        r is Ok <==> parse_spec(args@) is Ok,
        r matches Ok(p) ==> parse_spec(args@) matches Ok(q) && p.0.deep_view() == q.0
            && p.1.deep_view() == q.1,
        r matches Err(e) ==> parse_spec(args@) matches Err(e2) && e == e2,
{
    let chars = to_chars(args.as_str());
    let n = chars.len();
    let mut argv: Vec<String> = Vec::new();
    let mut redirs: Vec<RedirectOpt> = Vec::new();
    let mut pending: Option<(bool, bool)> = None;
    let mut quote: QuoteMode = QuoteMode::Unquoted;
    let mut escape: bool = false;
    let mut buf: Vec<char> = Vec::new();
    let mut i: usize = 0;
    while i < n
        invariant
            chars@ == args@,
            n == chars@.len(),
            i <= n,
            ({
                let st = scan_from(init_state(), args@.subrange(0, i as int));
                &&& argv.deep_view() == st.args
                &&& redirs.deep_view() == st.redirs
                &&& pending == st.pending
                &&& quote == st.quote
                &&& escape == st.escape
                &&& buf@ == st.buf
            }),
        decreases n - i,
    {
        let ghost st = scan_from(init_state(), args@.subrange(0, i as int));
        let c = chars[i];
        proof {
            assert(args@.subrange(0, i + 1 as int).drop_last() =~= args@.subrange(0, i as int));
            assert(args@.subrange(0, i + 1 as int).last() == c);
            assert(scan_from(init_state(), args@.subrange(0, i + 1 as int)) == step(st, c));
        }
        match quote {
            QuoteMode::Single => {
                if c == '\'' {
                    quote = QuoteMode::Unquoted;
                } else {
                    buf.push(c);
                }
            },
            QuoteMode::Double => {
                if escape {
                    escape = false;
                    if c == '$' || c == '"' || c == '\\' {
                        buf.push(c);
                    } else {
                        buf.push('\\');
                        buf.push(c);
                    }
                } else if c == '"' {
                    quote = QuoteMode::Unquoted;
                } else if c == '\\' {
                    escape = true;
                } else {
                    buf.push(c);
                }
            },
            QuoteMode::Unquoted => {
                if escape {
                    escape = false;
                    buf.push(c);
                } else if c == '"' {
                    quote = QuoteMode::Double;
                } else if c == '\'' {
                    quote = QuoteMode::Single;
                } else if c == '\\' {
                    escape = true;
                } else if c == ' ' {
                    if buf.len() > 0 {
                        match pending {
                            Some(op) => {
                                let tok = chars_to_string(&buf);
                                let ghost old_redirs = redirs.deep_view();
                                redirs.push(
                                    RedirectOpt {
                                        is_stderr: op.0,
                                        is_append: op.1,
                                        path: tok,
                                    },
                                );
                                pending = None;
                                buf = Vec::new();
                                proof {
                                    assert(redirs.deep_view() =~~= old_redirs.push(
                                        mk_redir(op, st.buf),
                                    ));
                                }
                            },
                            None => {
                                match classify_chars(&buf) {
                                    Some(op2) => {
                                        pending = Some(op2);
                                        buf = Vec::new();
                                    },
                                    None => {
                                        let tok = chars_to_string(&buf);
                                        let ghost old_args = argv.deep_view();
                                        argv.push(tok);
                                        buf = Vec::new();
                                        proof {
                                            assert(argv.deep_view() =~~= old_args.push(st.buf));
                                        }
                                    },
                                }
                            },
                        }
                    }
                } else {
                    buf.push(c);
                }
            },
        }
        i = i + 1;
    }
    proof {
        assert(args@.subrange(0, n as int) =~= args@);
    }
    let ghost st = scan_from(init_state(), args@);
    match quote {
        QuoteMode::Unquoted => {
            if buf.len() > 0 {
                match pending {
                    Some(op) => {
                        let tok = chars_to_string(&buf);
                        let ghost old_redirs = redirs.deep_view();
                        redirs.push(RedirectOpt { is_stderr: op.0, is_append: op.1, path: tok });
                        pending = None;
                        proof {
                            assert(redirs.deep_view() =~~= old_redirs.push(mk_redir(op, st.buf)));
                        }
                    },
                    None => {
                        match classify_chars(&buf) {
                            Some(op2) => {
                                pending = Some(op2);
                            },
                            None => {
                                let tok = chars_to_string(&buf);
                                let ghost old_args = argv.deep_view();
                                argv.push(tok);
                                proof {
                                    assert(argv.deep_view() =~~= old_args.push(st.buf));
                                }
                            },
                        }
                    },
                }
            }
            let ghost closed = close_token(st);
            match pending {
                Some(op) => {
                    let ghost old_redirs = redirs.deep_view();
                    redirs.push(
                        RedirectOpt { is_stderr: op.0, is_append: op.1, path: String::new() },
                    );
                    proof {
                        assert(redirs.deep_view() =~~= old_redirs.push(
                            mk_redir(op, Seq::empty()),
                        ));
                    }
                },
                None => {},
            }
            Ok((argv, redirs))
        },
        _ => Err(ParseError::UnclosedQuote),
    }
}

/// The split of a string at a separator, folded left to right: the pieces
/// already closed and the piece still being collected.
pub open spec fn split_state(s: Seq<char>, sep: char) -> (Seq<Seq<char>>, Seq<char>)
    decreases s.len(),
{
    if s.len() == 0 {
        (Seq::empty(), Seq::empty())
    } else {
        let prev = split_state(s.drop_last(), sep);
        if s.last() == sep {
            (prev.0.push(prev.1), Seq::empty())
        } else {
            (prev.0, prev.1.push(s.last()))
        }
    }
}

/// A string split at every occurrence of a separator, keeping empty pieces,
/// as the standard splitter does.
pub open spec fn split_chars(s: Seq<char>, sep: char) -> Seq<Seq<char>> {
    split_state(s, sep).0.push(split_state(s, sep).1)
}

/// A raw line with its terminator removed: a trailing carriage return and
/// newline, or a trailing newline alone, is dropped; anything else is kept.
pub open spec fn strip_line_ending_spec(s: Seq<char>) -> Seq<char> {
    if s.len() >= 2 && s[s.len() - 2] == '\r' && s[s.len() - 1] == '\n' {
        s.subrange(0, s.len() - 2)
    } else if s.len() >= 1 && s[s.len() - 1] == '\n' {
        s.subrange(0, s.len() - 1)
    } else {
        s
    }
}

/// Removes the line terminator a reader leaves at the end of a raw line,
/// whether it is `\r\n` or `\n` alone.
pub fn strip_line_ending(line: &str) -> (r: String)
    ensures
        r@ == strip_line_ending_spec(line@),
{
    let mut chars = to_chars(line);
    let n = chars.len();
    if n >= 2 && chars[n - 1] == '\n' && chars[n - 2] == '\r' {
        chars.truncate(n - 2);
    } else if n >= 1 && chars[n - 1] == '\n' {
        chars.truncate(n - 1);
    }
    chars_to_string(&chars)
}

/// Running the scan over a concatenation is running it over the two parts in
/// turn.
pub proof fn lemma_scan_from_concat(st: ParserState, a: Seq<char>, b: Seq<char>)
    ensures
        scan_from(st, a + b) == scan_from(scan_from(st, a), b),
    decreases b.len(),
{
    if b.len() == 0 {
        assert(a + b =~= a);
    } else {
        lemma_scan_from_concat(st, a, b.drop_last());
        assert((a + b).drop_last() =~= a + b.drop_last());
        assert((a + b).last() == b.last());
    }
}

/// Inside single quotes, a run of characters free of `'` is taken literally:
/// it lands in the token buffer and changes nothing else.
pub proof fn lemma_scan_single_literal(st: ParserState, s: Seq<char>)
    requires
        st.quote == QuoteMode::Single,
        forall|i: int| 0 <= i < s.len() ==> s[i] != '\'',
    ensures
        scan_from(st, s) == (ParserState { buf: st.buf + s, ..st }),
    decreases s.len(),
{
    if s.len() == 0 {
        assert(st.buf + s =~= st.buf);
        assert(scan_from(st, s) =~~= (ParserState { buf: st.buf + s, ..st }));
    } else {
        lemma_scan_single_literal(st, s.drop_last());
        assert(s.last() != '\'');
        assert((st.buf + s.drop_last()).push(s.last()) =~= st.buf + s);
        assert(scan_from(st, s) =~~= (ParserState { buf: st.buf + s, ..st }));
    }
}

/// A string wrapped in single quotes.
pub open spec fn concat_with_single_quotes(s: Seq<char>) -> Seq<char> {
    seq!['\''] + s + seq!['\'']
}

/// Round trip through single quoting: wrapping any nonempty string that holds
/// no `'` and is not itself a redirection operator in single quotes parses
/// back to exactly that one token, with no directives.
pub proof fn lemma_single_quote_round_trip(s: Seq<char>)
    requires
        s.len() > 0,
        forall|i: int| 0 <= i < s.len() ==> s[i] != '\'',
        classify(s) is None,
    ensures
        parse_spec(concat_with_single_quotes(s)) matches Ok(p) && p.0 == seq![s] && p.1
            == Seq::<RedirSpec>::empty(),
{
    let q = seq!['\''];
    let line = concat_with_single_quotes(s);
    assert(line == (q + s) + q);
    lemma_scan_from_concat(init_state(), q + s, q);
    lemma_scan_from_concat(init_state(), q, s);
    assert(q.drop_last().len() == 0);
    assert(q.last() == '\'');
    let st1 = scan_from(init_state(), q);
    assert(scan_from(init_state(), q.drop_last()) == init_state());
    assert(st1 == step(scan_from(init_state(), q.drop_last()), q.last()));
    assert(st1 == step(init_state(), '\''));
    assert(st1.quote == QuoteMode::Single);
    lemma_scan_single_literal(st1, s);
    let st2 = scan_from(st1, s);
    assert(st2.buf =~= s);
    let st3 = scan_from(st2, q);
    assert(scan_from(st2, q.drop_last()) == st2);
    assert(st3 == step(scan_from(st2, q.drop_last()), q.last()));
    assert(st3 == step(st2, '\''));
    assert(st3.quote == QuoteMode::Unquoted);
    assert(st3.buf == s && st3.pending is None && st3.args =~= Seq::<Seq<char>>::empty()
        && st3.redirs =~= Seq::<RedirSpec>::empty());
    assert(scan_from(init_state(), line) == st3);
    let closed = close_token(st3);
    assert(closed.args =~= seq![s]);
    assert(closed.redirs =~= Seq::<RedirSpec>::empty());
    assert(closed.pending is None);
}

/// The pieces of a split that are not empty.
pub open spec fn nonempty_pieces(pieces: Seq<Seq<char>>) -> Seq<Seq<char>> {
    pieces.filter(|p: Seq<char>| p.len() > 0)
}

/// The space-separated words of a line: its split at every space, with the
/// empty pieces between consecutive spaces dropped.
pub open spec fn words(line: Seq<char>) -> Seq<Seq<char>> {
    nonempty_pieces(split_chars(line, ' '))
}

proof fn lemma_nonempty_pieces_push(x: Seq<Seq<char>>, p: Seq<char>)
    ensures
        p.len() > 0 ==> nonempty_pieces(x.push(p)) == nonempty_pieces(x).push(p),
        p.len() == 0 ==> nonempty_pieces(x.push(p)) == nonempty_pieces(x),
{
    reveal(Seq::filter);
    assert(x.push(p).drop_last() =~= x);
    assert(x.push(p).last() == p);
}

/// On a line of plain characters, the scan walks in step with the split at
/// spaces: the token buffer is the open piece, and the emitted arguments are
/// the nonempty closed pieces.
proof fn lemma_plain_scan(s: Seq<char>)
    requires
        forall|i: int| 0 <= i < s.len() ==> s[i] != '\'' && s[i] != '"' && s[i] != '\\',
        forall|j: int| 0 <= j < split_state(s, ' ').0.len() ==> classify(
            #[trigger] split_state(s, ' ').0[j],
        ) is None,
    ensures
        ({
            let st = scan_from(init_state(), s);
            let sp = split_state(s, ' ');
            &&& st.quote == QuoteMode::Unquoted
            &&& !st.escape
            &&& st.pending is None
            &&& st.redirs == Seq::<RedirSpec>::empty()
            &&& st.buf == sp.1
            &&& st.args == nonempty_pieces(sp.0)
        }),
    decreases s.len(),
{
    if s.len() == 0 {
        reveal(Seq::filter);
        assert(split_state(s, ' ').0 == Seq::<Seq<char>>::empty());
        assert(scan_from(init_state(), s).args =~= nonempty_pieces(split_state(s, ' ').0));
    } else {
        let s0 = s.drop_last();
        let c = s.last();
        let prev = split_state(s0, ' ');
        let sp = split_state(s, ' ');
        if c == ' ' {
            assert(sp.0 == prev.0.push(prev.1));
            assert(forall|j: int| 0 <= j < prev.0.len() ==> prev.0[j] == sp.0[j]);
        } else {
            assert(sp.0 == prev.0);
        }
        lemma_plain_scan(s0);
        let st0 = scan_from(init_state(), s0);
        assert(scan_from(init_state(), s) == step(st0, c));
        if c == ' ' {
            if st0.buf.len() == 0 {
                lemma_nonempty_pieces_push(prev.0, prev.1);
            } else {
                assert(sp.0[prev.0.len() as int] == prev.1);
                assert(classify(prev.1) is None);
                lemma_nonempty_pieces_push(prev.0, prev.1);
            }
        }
    }
}

/// On a line of plain characters (no quotes, no backslashes) none of whose
/// space-separated words is a redirection operator, parsing yields exactly
/// the nonempty words, in order, and no directives: consecutive spaces
/// produce no empty tokens.
pub proof fn lemma_plain_words(s: Seq<char>)
    requires
        forall|i: int| 0 <= i < s.len() ==> s[i] != '\'' && s[i] != '"' && s[i] != '\\',
        forall|j: int| 0 <= j < split_chars(s, ' ').len() ==> classify(
            #[trigger] split_chars(s, ' ')[j],
        ) is None,
    ensures
        parse_spec(s) matches Ok(r) && r.0 == words(s) && r.1 == Seq::<RedirSpec>::empty(),
{
    let sp = split_state(s, ' ');
    assert(forall|j: int| 0 <= j < sp.0.len() ==> split_chars(s, ' ')[j] == sp.0[j]);
    lemma_plain_scan(s);
    let st = scan_from(init_state(), s);
    assert(split_chars(s, ' ')[sp.0.len() as int] == sp.1);
    assert(classify(sp.1) is None);
    lemma_nonempty_pieces_push(sp.0, sp.1);
    let closed = close_token(st);
    assert(closed.args == nonempty_pieces(split_chars(s, ' ')));
    assert(closed.pending is None);
    assert(closed.redirs == Seq::<RedirSpec>::empty());
}

/// Parsing is a pure function of the line: equal lines parse to equal
/// results, with no hidden state across calls.
pub proof fn lemma_parse_deterministic(l1: Seq<char>, l2: Seq<char>)
    requires
        l1 == l2,
    ensures
        parse_spec(l1) == parse_spec(l2),
{
}

} // verus!
