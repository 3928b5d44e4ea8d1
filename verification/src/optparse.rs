//! Parsing of a command's argument text against its declared option grammar.
//!
//! The grammar: a command line is a sequence of free arguments and option
//! occurrences, separated by spaces. An option occurrence is `-x` (short
//! form) or `--long` (long form); an option declared with `takes_args`
//! consumes either one bare argument or a bracketed, comma-separated list
//! `[a, b]`. Anything else up to the next `-` is a free argument.
//!
//! The executable parser is verified against `sp_parse`, a specification-level
//! interpreter of the same grammar over character sequences; the contract of
//! [`parse`] says the two agree exactly, on every input. Inputs on which no
//! further token can be read (for example a dangling option that wants an
//! argument, or an unterminated bracket) are rejected with an error.

use vstd::prelude::*;

use crate::strutil;

verus! {

/// Declaration of one option: its short (one-character) name, its long name,
/// a help line, and whether it consumes arguments.
pub struct OptDef {
    pub short: char,
    pub long: String,
    pub help: String,
    pub takes_args: bool,
}

/// One parsed occurrence of an option: the long name it was resolved to and
/// the arguments it consumed.
#[derive(Debug, PartialEq)]
pub struct Opt {
    pub name: String,
    pub args: Vec<String>,
}

/// The result of a successful parse: option occurrences and free arguments,
/// each in order of appearance.
#[derive(Debug, PartialEq)]
pub struct ParsedOpts {
    pub opts: Vec<Opt>,
    pub free: Vec<String>,
}

#[derive(Debug)]
pub enum ParseErrorKind {
    UnexpectedChar(char),
    UnexpectedEnd,
    UnrecognizedShort(char),
    UnrecognizedLong(String),
}

#[derive(Debug)]
pub struct ParseError {
    pub kind: ParseErrorKind,
}

impl ParseError {
    fn new(kind: ParseErrorKind) -> (r: ParseError)
        ensures
            r.kind == kind,
    {
        ParseError { kind }
    }
}

// ---------------------------------------------------------------------------
// The mathematical model: parse results over sequences of characters.
// ---------------------------------------------------------------------------

/// Model of one option occurrence: (long name, arguments).
pub type OptModel = (Seq<char>, Seq<Seq<char>>);

/// Model of a parse failure.
pub enum ParseFailure {
    UnexpectedChar(char),
    UnexpectedEnd,
    UnrecognizedShort(char),
    UnrecognizedLong(Seq<char>),
}

pub open spec fn opt_model(o: Opt) -> OptModel {
    (o.name@, o.args@.map_values(|a: String| a@))
}

pub open spec fn opts_model(v: Seq<Opt>) -> Seq<OptModel> {
    v.map_values(|o: Opt| opt_model(o))
}

pub open spec fn strs_model(v: Seq<String>) -> Seq<Seq<char>> {
    v.map_values(|s: String| s@)
}

pub open spec fn err_model(e: ParseError) -> ParseFailure {
    match e.kind {
        ParseErrorKind::UnexpectedChar(c) => ParseFailure::UnexpectedChar(c),
        ParseErrorKind::UnexpectedEnd => ParseFailure::UnexpectedEnd,
        ParseErrorKind::UnrecognizedShort(c) => ParseFailure::UnrecognizedShort(c),
        ParseErrorKind::UnrecognizedLong(s) => ParseFailure::UnrecognizedLong(s@),
    }
}

/// Position of the first occurrence of `c` in `s[i..end]`.
pub open spec fn find_in(s: Seq<char>, i: int, end: int, c: char) -> Option<int>
    decreases end - i,
{
    if i < 0 || i >= end {
        None
    } else if s[i] == c {
        Some(i)
    } else {
        find_in(s, i + 1, end, c)
    }
}

/// Position of the first character of `s[i..end]` that is not a space.
pub open spec fn find_nonblank(s: Seq<char>, i: int, end: int) -> Option<int>
    decreases end - i,
{
    if i < 0 || i >= end {
        None
    } else if s[i] != ' ' {
        Some(i)
    } else {
        find_nonblank(s, i + 1, end)
    }
}

/// Position of the last character of `s[i..end]` that is not a space.
pub open spec fn last_nonblank(s: Seq<char>, i: int, end: int) -> Option<int>
    decreases end - i,
{
    if i < 0 || i >= end {
        None
    } else if s[end - 1] != ' ' {
        Some(end - 1)
    } else {
        last_nonblank(s, i, end - 1)
    }
}

/// `s[i..end]` with leading and trailing spaces removed.
pub open spec fn trim_range(s: Seq<char>, i: int, end: int) -> Seq<char> {
    match find_nonblank(s, i, end) {
        None => Seq::empty(),
        Some(a) => match last_nonblank(s, i, end) {
            None => Seq::empty(),
            Some(b) => s.subrange(a, b + 1),
        },
    }
}

/// `s[start..end]` split at commas (scanning from `j`), each piece trimmed.
pub open spec fn split_commas(s: Seq<char>, start: int, j: int, end: int) -> Seq<Seq<char>>
    decreases end - j,
{
    if j < start || j >= end {
        seq![trim_range(s, start, end)]
    } else if s[j] == ',' {
        seq![trim_range(s, start, j)] + split_commas(s, j + 1, j + 1, end)
    } else {
        split_commas(s, start, j + 1, end)
    }
}

/// Index of the first declared option with the given short name.
pub open spec fn lookup_short(defs: Seq<OptDef>, c: char, k: int) -> Option<int>
    decreases defs.len() - k,
{
    if k < 0 || k >= defs.len() {
        None
    } else if defs[k].short == c {
        Some(k)
    } else {
        lookup_short(defs, c, k + 1)
    }
}

/// Index of the first declared option with the given long name.
pub open spec fn lookup_long(defs: Seq<OptDef>, name: Seq<char>, k: int) -> Option<int>
    decreases defs.len() - k,
{
    if k < 0 || k >= defs.len() {
        None
    } else if defs[k].long@ == name {
        Some(k)
    } else {
        lookup_long(defs, name, k + 1)
    }
}

/// The option list with the arguments of its most recent occurrence replaced.
pub open spec fn set_last_args(opts: Seq<OptModel>, args: Seq<Seq<char>>) -> Seq<OptModel> {
    if opts.len() == 0 {
        opts
    } else {
        opts.update(opts.len() - 1, (opts.last().0, args))
    }
}

/// The option list with one argument appended to its most recent occurrence.
pub open spec fn append_last_arg(opts: Seq<OptModel>, arg: Seq<char>) -> Seq<OptModel> {
    if opts.len() == 0 {
        opts
    } else {
        opts.update(opts.len() - 1, (opts.last().0, opts.last().1.push(arg)))
    }
}

/// Outcome of one parsing step: the position parsing continues at, and the
/// option occurrences and free arguments gathered so far.
pub type StepResult = Result<(int, Seq<OptModel>, Seq<Seq<char>>), ParseFailure>;

/// A bracketed, comma-separated argument list `[ .. ]`, starting just after
/// the opening bracket; the list replaces the last option's arguments.
pub open spec fn sp_parse_array(
    s: Seq<char>,
    i: int,
    end: int,
    opts: Seq<OptModel>,
    free: Seq<Seq<char>>,
) -> StepResult {
    match find_in(s, i, end, ']') {
        None => Err(ParseFailure::UnexpectedEnd),
        Some(p) => Ok((p + 1, set_last_args(opts, split_commas(s, i, i, p)), free)),
    }
}

/// One bare argument, appended to the last option's arguments; parsing
/// continues at the space (or end) that terminates it.
pub open spec fn sp_parse_single(
    s: Seq<char>,
    i: int,
    end: int,
    opts: Seq<OptModel>,
    free: Seq<Seq<char>>,
) -> StepResult {
    match find_nonblank(s, i, end) {
        None => Err(ParseFailure::UnexpectedEnd),
        Some(b) => match find_in(s, b, end, ' ') {
            Some(e) => Ok((e, append_last_arg(opts, s.subrange(b, e)), free)),
            None => Ok((end, append_last_arg(opts, s.subrange(b, end)), free)),
        },
    }
}

/// The one-or-more-arguments position of an option that takes arguments:
/// either a bracketed list or a single bare argument.
pub open spec fn sp_parse_args(
    s: Seq<char>,
    i: int,
    end: int,
    opts: Seq<OptModel>,
    free: Seq<Seq<char>>,
) -> StepResult {
    match find_nonblank(s, i, end) {
        None => Err(ParseFailure::UnexpectedEnd),
        Some(j) => if s[j] == '[' {
            sp_parse_array(s, j + 1, end, opts, free)
        } else {
            sp_parse_single(s, j, end, opts, free)
        },
    }
}

/// A short option `-x` with `i` at the character after the dash.
pub open spec fn sp_parse_short(
    s: Seq<char>,
    i: int,
    end: int,
    defs: Seq<OptDef>,
    opts: Seq<OptModel>,
    free: Seq<Seq<char>>,
) -> StepResult {
    if i >= end {
        Err(ParseFailure::UnexpectedEnd)
    } else if s[i] == '-' {
        Err(ParseFailure::UnexpectedChar('-'))
    } else {
        match lookup_short(defs, s[i], 0) {
            None => Err(ParseFailure::UnrecognizedShort(s[i])),
            Some(k) => {
                let opts2 = opts.push((defs[k].long@, Seq::empty()));
                if defs[k].takes_args {
                    sp_parse_args(s, i + 1, end, opts2, free)
                } else {
                    Ok((i + 1, opts2, free))
                }
            },
        }
    }
}

/// A long option `--name` with `i` at the character after the two dashes;
/// the name runs to the next space (or the end).
pub open spec fn sp_parse_long(
    s: Seq<char>,
    i: int,
    end: int,
    defs: Seq<OptDef>,
    opts: Seq<OptModel>,
    free: Seq<Seq<char>>,
) -> StepResult {
    let nend = match find_in(s, i, end, ' ') {
        Some(p) => p,
        None => end,
    };
    match lookup_long(defs, s.subrange(i, nend), 0) {
        None => Err(ParseFailure::UnrecognizedLong(s.subrange(i, nend))),
        Some(k) => {
            let opts2 = opts.push((defs[k].long@, Seq::empty()));
            if defs[k].takes_args {
                sp_parse_args(s, nend + 1, end, opts2, free)
            } else {
                Ok((if nend + 1 <= end { nend + 1 } else { end }, opts2, free))
            }
        },
    }
}

/// An option occurrence with `i` at the character after the leading dash.
pub open spec fn sp_parse_opt(
    s: Seq<char>,
    i: int,
    end: int,
    defs: Seq<OptDef>,
    opts: Seq<OptModel>,
    free: Seq<Seq<char>>,
) -> StepResult {
    if i < end && s[i] == '-' {
        sp_parse_long(s, i + 1, end, defs, opts, free)
    } else {
        sp_parse_short(s, i, end, defs, opts, free)
    }
}

/// A free argument starting at the non-space character `i`: it runs to the
/// next dash, trimmed, or untrimmed to the end if no dash follows.
pub open spec fn sp_parse_free(
    s: Seq<char>,
    i: int,
    end: int,
    opts: Seq<OptModel>,
    free: Seq<Seq<char>>,
) -> StepResult {
    match find_in(s, i, end, '-') {
        Some(p) => Ok((p, opts, free.push(trim_range(s, i, p)))),
        None => Ok((end, opts, free.push(s.subrange(i, end)))),
    }
}

/// The whole grammar: repeatedly skip spaces, read an option occurrence or a
/// free argument, and stop successfully once the input is exhausted.
pub open spec fn sp_parse(
    s: Seq<char>,
    i: int,
    end: int,
    defs: Seq<OptDef>,
    opts: Seq<OptModel>,
    free: Seq<Seq<char>>,
) -> Result<(Seq<OptModel>, Seq<Seq<char>>), ParseFailure>
    decreases end - i,
    when 0 <= i <= end <= s.len()
    via sp_parse_decreases
{
    match find_nonblank(s, i, end) {
        None => Err(ParseFailure::UnexpectedEnd),
        Some(j) => {
            let step = if s[j] == '-' {
                sp_parse_opt(s, j + 1, end, defs, opts, free)
            } else {
                sp_parse_free(s, j, end, opts, free)
            };
            match step {
                Err(e) => Err(e),
                Ok((p, opts2, free2)) => if p >= end {
                    Ok((opts2, free2))
                } else {
                    sp_parse(s, p, end, defs, opts2, free2)
                },
            }
        },
    }
}

#[via_fn]
proof fn sp_parse_decreases(
    s: Seq<char>,
    i: int,
    end: int,
    defs: Seq<OptDef>,
    opts: Seq<OptModel>,
    free: Seq<Seq<char>>,
) {
    if let Some(j) = find_nonblank(s, i, end) {
        lemma_find_nonblank_range(s, i, end);
        lemma_step_progress(s, j, end, defs, opts, free);
    }
}

// ---------------------------------------------------------------------------
// Range and progress facts about the specification functions.
// ---------------------------------------------------------------------------

pub(crate) proof fn lemma_find_in_range(s: Seq<char>, i: int, end: int, c: char)
    ensures
        find_in(s, i, end, c) matches Some(p) ==> i <= p < end && s[p] == c,
    decreases end - i,
{
    if 0 <= i < end && s[i] != c {
        lemma_find_in_range(s, i + 1, end, c);
    }
}

proof fn lemma_find_nonblank_range(s: Seq<char>, i: int, end: int)
    ensures
        find_nonblank(s, i, end) matches Some(p) ==> i <= p < end && s[p] != ' '
            && (forall|k: int| i <= k < p ==> s[k] == ' '),
        0 <= i && find_nonblank(s, i, end) is None ==> forall|k: int| i <= k < end ==> s[k]
            == ' ',
    decreases end - i,
{
    if 0 <= i < end && s[i] == ' ' {
        lemma_find_nonblank_range(s, i + 1, end);
    }
}

proof fn lemma_last_nonblank_range(s: Seq<char>, i: int, end: int)
    ensures
        last_nonblank(s, i, end) matches Some(p) ==> i <= p < end && s[p] != ' '
            && (forall|k: int| p < k < end ==> s[k] == ' '),
        0 <= i && last_nonblank(s, i, end) is None ==> forall|k: int| i <= k < end ==> s[k]
            == ' ',
    decreases end - i,
{
    if 0 <= i < end && s[end - 1] == ' ' {
        lemma_last_nonblank_range(s, i, end - 1);
    }
}

/// The first and the last non-space positions of a range bound each other.
proof fn lemma_trim_bounds(s: Seq<char>, i: int, end: int)
    ensures
        find_nonblank(s, i, end) matches Some(a) ==> {
            &&& last_nonblank(s, i, end) matches Some(b)
            &&& i <= a <= b < end
        },
{
    lemma_find_nonblank_range(s, i, end);
    lemma_last_nonblank_range(s, i, end);
}

/// Every successful parsing step moves strictly forward (and never past the
/// end): the argument of termination for `sp_parse`.
proof fn lemma_step_progress(
    s: Seq<char>,
    j: int,
    end: int,
    defs: Seq<OptDef>,
    opts: Seq<OptModel>,
    free: Seq<Seq<char>>,
)
    requires
        0 <= j < end <= s.len(),
    ensures
        s[j] == '-' ==> (sp_parse_opt(s, j + 1, end, defs, opts, free) matches Ok(step)
            ==> j < step.0 <= end),
        s[j] != '-' ==> (sp_parse_free(s, j, end, opts, free) matches Ok(step)
            ==> j < step.0 <= end),
{
    if s[j] == '-' {
        lemma_opt_progress(s, j + 1, end, defs, opts, free);
    } else {
        lemma_find_in_range(s, j, end, '-');
        assert(find_in(s, j, end, '-') matches Some(p) ==> p > j) by {
            if find_in(s, j, end, '-') matches Some(p) {
                assert(s[j] != '-');
            }
        }
    }
}

proof fn lemma_args_progress(
    s: Seq<char>,
    i: int,
    end: int,
    opts: Seq<OptModel>,
    free: Seq<Seq<char>>,
)
    requires
        end <= s.len(),
    ensures
        sp_parse_args(s, i, end, opts, free) matches Ok(step) ==> i < step.0 <= end,
{
    lemma_find_nonblank_range(s, i, end);
    if let Some(j) = find_nonblank(s, i, end) {
        if s[j] == '[' {
            lemma_find_in_range(s, j + 1, end, ']');
        } else {
            lemma_find_nonblank_range(s, j, end);
            if let Some(b) = find_nonblank(s, j, end) {
                lemma_find_in_range(s, b, end, ' ');
                assert(find_in(s, b, end, ' ') matches Some(e) ==> e > b) by {
                    if find_in(s, b, end, ' ') matches Some(e) {
                        assert(s[b] != ' ');
                    }
                }
            }
        }
    }
}

proof fn lemma_opt_progress(
    s: Seq<char>,
    i: int,
    end: int,
    defs: Seq<OptDef>,
    opts: Seq<OptModel>,
    free: Seq<Seq<char>>,
)
    requires
        0 <= i,
        end <= s.len(),
    ensures
        sp_parse_opt(s, i, end, defs, opts, free) matches Ok(step) ==> i - 1 < step.0 <= end,
{
    if i < end && s[i] == '-' {
        // long form
        lemma_find_in_range(s, i + 1, end, ' ');
        let nend = match find_in(s, i + 1, end, ' ') {
            Some(p) => p,
            None => end,
        };
        assert(i <= nend <= end);
        if let Some(k) = lookup_long(defs, s.subrange(i + 1, nend), 0) {
            let opts2 = opts.push((defs[k].long@, Seq::empty()));
            if defs[k].takes_args {
                lemma_args_progress(s, nend + 1, end, opts2, free);
            }
        }
    } else {
        if i < end {
            if let Some(k) = lookup_short(defs, s[i], 0) {
                let opts2 = opts.push((defs[k].long@, Seq::empty()));
                if defs[k].takes_args {
                    lemma_args_progress(s, i + 1, end, opts2, free);
                }
            }
        }
    }
}

// ---------------------------------------------------------------------------
// The executable parser.
// ---------------------------------------------------------------------------

pub open spec fn po_opts(po: ParsedOpts) -> Seq<OptModel> {
    opts_model(po.opts@)
}

pub open spec fn po_free(po: ParsedOpts) -> Seq<Seq<char>> {
    strs_model(po.free@)
}

pub(crate) fn next_nonblank_at(chars: &Vec<char>, i: usize, end: usize) -> (r: Option<usize>)
    requires
        end <= chars@.len(),
    ensures
        r matches Some(p) ==> find_nonblank(chars@, i as int, end as int) == Some(p as int)
            && i <= p < end,
        r is None ==> find_nonblank(chars@, i as int, end as int) is None,
{
    if i >= end {
        return None;
    }
    let mut cur = i;
    while cur < end
        invariant
            i <= cur <= end <= chars@.len(),
            find_nonblank(chars@, i as int, end as int) == find_nonblank(
                chars@,
                cur as int,
                end as int,
            ),
        decreases end - cur,
    {
        if chars[cur] != ' ' {
            return Some(cur);
        }
        cur = cur + 1;
    }
    None
}

pub(crate) fn find_char_at(chars: &Vec<char>, i: usize, end: usize, c: char) -> (r: Option<usize>)
    requires
        end <= chars@.len(),
    ensures
        r matches Some(p) ==> find_in(chars@, i as int, end as int, c) == Some(p as int)
            && i <= p < end,
        r is None ==> find_in(chars@, i as int, end as int, c) is None,
{
    if i >= end {
        return None;
    }
    let mut cur = i;
    while cur < end
        invariant
            i <= cur <= end <= chars@.len(),
            find_in(chars@, i as int, end as int, c) == find_in(chars@, cur as int, end as int, c),
        decreases end - cur,
    {
        if chars[cur] == c {
            return Some(cur);
        }
        cur = cur + 1;
    }
    None
}

fn last_nonblank_at(chars: &Vec<char>, i: usize, end: usize) -> (r: Option<usize>)
    requires
        end <= chars@.len(),
    ensures
        r matches Some(p) ==> last_nonblank(chars@, i as int, end as int) == Some(p as int)
            && i <= p < end,
        r is None ==> last_nonblank(chars@, i as int, end as int) is None,
{
    if i >= end {
        return None;
    }
    let mut cur = end;
    while cur > i
        invariant
            i <= cur <= end <= chars@.len(),
            last_nonblank(chars@, i as int, end as int) == last_nonblank(
                chars@,
                i as int,
                cur as int,
            ),
        decreases cur,
    {
        if chars[cur - 1] != ' ' {
            return Some(cur - 1);
        }
        cur = cur - 1;
    }
    None
}

/// A string holding `chars[i..end]` trimmed of leading and trailing spaces.
pub(crate) fn trim_string(chars: &Vec<char>, i: usize, end: usize) -> (r: String)
    requires
        end <= chars@.len(),
    ensures
        r@ == trim_range(chars@, i as int, end as int),
{
    proof {
        lemma_trim_bounds(chars@, i as int, end as int);
    }
    match next_nonblank_at(chars, i, end) {
        None => String::new(),
        Some(a) => match last_nonblank_at(chars, i, end) {
            None => String::new(),
            Some(b) => strutil::string_range(chars, a, b + 1),
        },
    }
}

/// Whether `s` holds exactly the characters `chars[i..end]`.
pub(crate) fn str_eq_range(s: &str, chars: &Vec<char>, i: usize, end: usize) -> (r: bool)
    requires
        i <= end <= chars@.len(),
    ensures
        r == (s@ == chars@.subrange(i as int, end as int)),
{
    let len = s.unicode_len();
    if len != end - i {
        return false;
    }
    let mut k: usize = 0;
    while k < len
        invariant
            k <= len,
            len == s@.len(),
            i + len == end,
            end <= chars@.len(),
            forall|j: int| 0 <= j < k ==> s@[j] == chars@[i + j],
        decreases len - k,
    {
        if s.get_char(k) != chars[i + k] {
            return false;
        }
        k = k + 1;
    }
    proof {
        assert(s@ =~= chars@.subrange(i as int, end as int));
    }
    true
}

fn lookup_short_at(defs: &[OptDef], c: char) -> (r: Option<usize>)
    ensures
        r matches Some(k) ==> lookup_short(defs@, c, 0) == Some(k as int) && k < defs@.len(),
        r is None ==> lookup_short(defs@, c, 0) is None,
{
    let mut k: usize = 0;
    let n = defs.len();
    while k < n
        invariant
            k <= n == defs@.len(),
            lookup_short(defs@, c, 0) == lookup_short(defs@, c, k as int),
        decreases n - k,
    {
        if defs[k].short == c {
            return Some(k);
        }
        k = k + 1;
    }
    None
}

fn lookup_long_at(defs: &[OptDef], chars: &Vec<char>, i: usize, nend: usize) -> (r: Option<usize>)
    requires
        i <= nend <= chars@.len(),
    ensures
        r matches Some(k) ==> lookup_long(defs@, chars@.subrange(i as int, nend as int), 0)
            == Some(k as int) && k < defs@.len(),
        r is None ==> lookup_long(defs@, chars@.subrange(i as int, nend as int), 0) is None,
{
    let ghost name = chars@.subrange(i as int, nend as int);
    let mut k: usize = 0;
    let n = defs.len();
    while k < n
        invariant
            k <= n == defs@.len(),
            i <= nend <= chars@.len(),
            name == chars@.subrange(i as int, nend as int),
            lookup_long(defs@, name, 0) == lookup_long(defs@, name, k as int),
        decreases n - k,
    {
        if str_eq_range(defs[k].long.as_str(), chars, i, nend) {
            return Some(k);
        }
        k = k + 1;
    }
    None
}

/// Record an occurrence of the option named `name`, with no arguments yet.
fn push_opt(po: &mut ParsedOpts, name: String)
    ensures
        po_opts(*final(po)) == po_opts(*old(po)).push((name@, Seq::<Seq<char>>::empty())),
        final(po).free == old(po).free,
{
    let args: Vec<String> = Vec::new();
    po.opts.push(Opt { name, args });
    proof {
        assert(po_opts(*po) =~~= po_opts(*old(po)).push((name@, Seq::<Seq<char>>::empty())));
    }
}

/// Append one argument to the most recently recorded option occurrence.
fn append_last_arg_exec(po: &mut ParsedOpts, arg: String)
    ensures
        po_opts(*final(po)) == append_last_arg(po_opts(*old(po)), arg@),
        final(po).free == old(po).free,
{
    let n = po.opts.len();
    if n == 0 {
        return;
    }
    let mut last = po.opts.pop().unwrap();
    last.args.push(arg);
    po.opts.push(last);
    proof {
        assert(po_opts(*po) =~~= append_last_arg(po_opts(*old(po)), arg@));
    }
}

/// Replace the arguments of the most recently recorded option occurrence.
fn set_last_args_exec(po: &mut ParsedOpts, args: Vec<String>)
    ensures
        po_opts(*final(po)) == set_last_args(po_opts(*old(po)), strs_model(args@)),
        final(po).free == old(po).free,
{
    let n = po.opts.len();
    if n == 0 {
        return;
    }
    let last = po.opts.pop().unwrap();
    let name = last.name;
    po.opts.push(Opt { name, args });
    proof {
        assert(po_opts(*po) =~~= set_last_args(po_opts(*old(po)), strs_model(args@)));
    }
}

fn parse_array_at(chars: &Vec<char>, i: usize, end: usize, po: &mut ParsedOpts) -> (r: Result<
    usize,
    ParseError,
>)
    requires
        i <= end + 1,
        end <= chars@.len(),
    ensures
        r matches Ok(p) ==> sp_parse_array(
            chars@,
            i as int,
            end as int,
            po_opts(*old(po)),
            po_free(*old(po)),
        ) == Ok::<_, ParseFailure>((p as int, po_opts(*final(po)), po_free(*final(po)))),
        r matches Err(e) ==> sp_parse_array(
            chars@,
            i as int,
            end as int,
            po_opts(*old(po)),
            po_free(*old(po)),
        ) == Err::<(int, Seq<OptModel>, Seq<Seq<char>>), _>(err_model(e)),
{
    match find_char_at(chars, i, end, ']') {
        None => Err(ParseError::new(ParseErrorKind::UnexpectedEnd)),
        Some(p) => {
            // split chars[i..p] at commas, trimming each piece
            let mut args: Vec<String> = Vec::new();
            let mut start = i;
            let mut j = i;
            while j < p
                invariant
                    i <= start <= j <= p < end <= chars@.len(),
                    split_commas(chars@, i as int, i as int, p as int) == strs_model(args@)
                        + split_commas(chars@, start as int, j as int, p as int),
                decreases p - j,
            {
                if chars[j] == ',' {
                    let piece = trim_string(chars, start, j);
                    args.push(piece);
                    proof {
                        assert(strs_model(args@) =~= strs_model(args@.drop_last()).push(
                            trim_range(chars@, start as int, j as int),
                        ));
                        assert(strs_model(args@) + split_commas(
                            chars@,
                            j + 1 as int,
                            j + 1 as int,
                            p as int,
                        ) =~= split_commas(chars@, i as int, i as int, p as int));
                    }
                    start = j + 1;
                    j = j + 1;
                } else {
                    j = j + 1;
                }
            }
            let piece = trim_string(chars, start, p);
            args.push(piece);
            proof {
                assert(strs_model(args@) =~= strs_model(args@.drop_last()).push(
                    trim_range(chars@, start as int, p as int),
                ));
                assert(strs_model(args@) =~= split_commas(chars@, i as int, i as int, p as int));
            }
            set_last_args_exec(po, args);
            Ok(p + 1)
        },
    }
}

fn parse_single_at(chars: &Vec<char>, i: usize, end: usize, po: &mut ParsedOpts) -> (r: Result<
    usize,
    ParseError,
>)
    requires
        end <= chars@.len(),
    ensures
        r matches Ok(p) ==> sp_parse_single(
            chars@,
            i as int,
            end as int,
            po_opts(*old(po)),
            po_free(*old(po)),
        ) == Ok::<_, ParseFailure>((p as int, po_opts(*final(po)), po_free(*final(po)))),
        r matches Err(e) ==> sp_parse_single(
            chars@,
            i as int,
            end as int,
            po_opts(*old(po)),
            po_free(*old(po)),
        ) == Err::<(int, Seq<OptModel>, Seq<Seq<char>>), _>(err_model(e)),
{
    match next_nonblank_at(chars, i, end) {
        None => Err(ParseError::new(ParseErrorKind::UnexpectedEnd)),
        Some(b) => match find_char_at(chars, b, end, ' ') {
            Some(e) => {
                let arg = strutil::string_range(chars, b, e);
                append_last_arg_exec(po, arg);
                Ok(e)
            },
            None => {
                let arg = strutil::string_range(chars, b, end);
                append_last_arg_exec(po, arg);
                Ok(end)
            },
        },
    }
}

fn parse_args_at(chars: &Vec<char>, i: usize, end: usize, po: &mut ParsedOpts) -> (r: Result<
    usize,
    ParseError,
>)
    requires
        i <= end + 1,
        end <= chars@.len(),
    ensures
        r matches Ok(p) ==> sp_parse_args(
            chars@,
            i as int,
            end as int,
            po_opts(*old(po)),
            po_free(*old(po)),
        ) == Ok::<_, ParseFailure>((p as int, po_opts(*final(po)), po_free(*final(po)))),
        r matches Err(e) ==> sp_parse_args(
            chars@,
            i as int,
            end as int,
            po_opts(*old(po)),
            po_free(*old(po)),
        ) == Err::<(int, Seq<OptModel>, Seq<Seq<char>>), _>(err_model(e)),
{
    match next_nonblank_at(chars, i, end) {
        None => Err(ParseError::new(ParseErrorKind::UnexpectedEnd)),
        Some(j) => {
            if chars[j] == '[' {
                parse_array_at(chars, j + 1, end, po)
            } else {
                parse_single_at(chars, j, end, po)
            }
        },
    }
}

fn parse_short_at(
    chars: &Vec<char>,
    i: usize,
    end: usize,
    defs: &[OptDef],
    po: &mut ParsedOpts,
) -> (r: Result<usize, ParseError>)
    requires
        i <= end,
        end <= chars@.len(),
    ensures
        r matches Ok(p) ==> sp_parse_short(
            chars@,
            i as int,
            end as int,
            defs@,
            po_opts(*old(po)),
            po_free(*old(po)),
        ) == Ok::<_, ParseFailure>((p as int, po_opts(*final(po)), po_free(*final(po)))),
        r matches Err(e) ==> sp_parse_short(
            chars@,
            i as int,
            end as int,
            defs@,
            po_opts(*old(po)),
            po_free(*old(po)),
        ) == Err::<(int, Seq<OptModel>, Seq<Seq<char>>), _>(err_model(e)),
{
    if i >= end {
        return Err(ParseError::new(ParseErrorKind::UnexpectedEnd));
    }
    let c = chars[i];
    if c == '-' {
        return Err(ParseError::new(ParseErrorKind::UnexpectedChar('-')));
    }
    match lookup_short_at(defs, c) {
        None => Err(ParseError::new(ParseErrorKind::UnrecognizedShort(c))),
        Some(k) => {
            let name = defs[k].long.clone();
            let takes_args = defs[k].takes_args;
            push_opt(po, name);
            if takes_args {
                parse_args_at(chars, i + 1, end, po)
            } else {
                Ok(i + 1)
            }
        },
    }
}

fn parse_long_at(
    chars: &Vec<char>,
    i: usize,
    end: usize,
    defs: &[OptDef],
    po: &mut ParsedOpts,
) -> (r: Result<usize, ParseError>)
    requires
        i <= end,
        end <= chars@.len(),
    ensures
        r matches Ok(p) ==> sp_parse_long(
            chars@,
            i as int,
            end as int,
            defs@,
            po_opts(*old(po)),
            po_free(*old(po)),
        ) == Ok::<_, ParseFailure>((p as int, po_opts(*final(po)), po_free(*final(po)))),
        r matches Err(e) ==> sp_parse_long(
            chars@,
            i as int,
            end as int,
            defs@,
            po_opts(*old(po)),
            po_free(*old(po)),
        ) == Err::<(int, Seq<OptModel>, Seq<Seq<char>>), _>(err_model(e)),
{
    let nend = match find_char_at(chars, i, end, ' ') {
        Some(p) => p,
        None => end,
    };
    match lookup_long_at(defs, chars, i, nend) {
        None => {
            let name = strutil::string_range(chars, i, nend);
            Err(ParseError::new(ParseErrorKind::UnrecognizedLong(name)))
        },
        Some(k) => {
            let name = defs[k].long.clone();
            let takes_args = defs[k].takes_args;
            push_opt(po, name);
            if takes_args {
                let next = if nend < end {
                    nend + 1
                } else {
                    end
                };
                let r = parse_args_at(chars, next, end, po);
                proof {
                    if nend >= end {
                        // both starting points lie past the input: the same
                        // missing-argument failure
                        assert(sp_parse_args(
                            chars@,
                            nend + 1 as int,
                            end as int,
                            po_opts(*old(po)).push((defs@[k as int].long@, Seq::empty())),
                            po_free(*old(po)),
                        ) == sp_parse_args(
                            chars@,
                            end as int,
                            end as int,
                            po_opts(*old(po)).push((defs@[k as int].long@, Seq::empty())),
                            po_free(*old(po)),
                        ));
                    }
                }
                r
            } else {
                Ok(if nend < end {
                    nend + 1
                } else {
                    end
                })
            }
        },
    }
}

fn parse_opt_at(
    chars: &Vec<char>,
    i: usize,
    end: usize,
    defs: &[OptDef],
    po: &mut ParsedOpts,
) -> (r: Result<usize, ParseError>)
    requires
        i <= end,
        end <= chars@.len(),
    ensures
        r matches Ok(p) ==> sp_parse_opt(
            chars@,
            i as int,
            end as int,
            defs@,
            po_opts(*old(po)),
            po_free(*old(po)),
        ) == Ok::<_, ParseFailure>((p as int, po_opts(*final(po)), po_free(*final(po)))),
        r matches Err(e) ==> sp_parse_opt(
            chars@,
            i as int,
            end as int,
            defs@,
            po_opts(*old(po)),
            po_free(*old(po)),
        ) == Err::<(int, Seq<OptModel>, Seq<Seq<char>>), _>(err_model(e)),
{
    if i < end && chars[i] == '-' {
        parse_long_at(chars, i + 1, end, defs, po)
    } else {
        parse_short_at(chars, i, end, defs, po)
    }
}

fn parse_free_at(chars: &Vec<char>, i: usize, end: usize, po: &mut ParsedOpts) -> (r: Result<
    usize,
    ParseError,
>)
    requires
        i <= end,
        end <= chars@.len(),
    ensures
        r matches Ok(p) ==> sp_parse_free(
            chars@,
            i as int,
            end as int,
            po_opts(*old(po)),
            po_free(*old(po)),
        ) == Ok::<_, ParseFailure>((p as int, po_opts(*final(po)), po_free(*final(po)))),
        r is Ok,
{
    match find_char_at(chars, i, end, '-') {
        Some(p) => {
            let piece = trim_string(chars, i, p);
            po.free.push(piece);
            proof {
                assert(po_free(*po) =~= po_free(*old(po)).push(
                    trim_range(chars@, i as int, p as int),
                ));
            }
            Ok(p)
        },
        None => {
            let piece = strutil::string_range(chars, i, end);
            po.free.push(piece);
            proof {
                assert(po_free(*po) =~= po_free(*old(po)).push(
                    chars@.subrange(i as int, end as int),
                ));
            }
            Ok(end)
        },
    }
}

/// Parse a command line against the declared options.
///
/// The result is exactly what the specification-level interpreter
/// [`sp_parse`] assigns to the input: the option occurrences and free
/// arguments in order of appearance on success, and the first failure
/// (unrecognized option, or input ending where the grammar still wants a
/// token) otherwise.
pub fn parse(cmdline: &str, opt_defs: &[OptDef]) -> (r: Result<ParsedOpts, ParseError>)
    ensures
        r matches Ok(po) ==> sp_parse(
            cmdline@,
            0,
            cmdline@.len() as int,
            opt_defs@,
            Seq::empty(),
            Seq::empty(),
        ) == Ok::<_, ParseFailure>((po_opts(po), po_free(po))),
        r matches Err(e) ==> sp_parse(
            cmdline@,
            0,
            cmdline@.len() as int,
            opt_defs@,
            Seq::empty(),
            Seq::empty(),
        ) == Err::<(Seq<OptModel>, Seq<Seq<char>>), _>(err_model(e)),
{
    let chars = strutil::str_to_chars(cmdline);
    let end = chars.len();
    let mut po = ParsedOpts { opts: Vec::new(), free: Vec::new() };
    let mut cur: usize = 0;
    proof {
        assert(po_opts(po) =~= Seq::<OptModel>::empty());
        assert(po_free(po) =~= Seq::<Seq<char>>::empty());
    }
    loop
        invariant
            cur <= end == chars@.len(),
            chars@ == cmdline@,
            sp_parse(cmdline@, 0, end as int, opt_defs@, Seq::empty(), Seq::empty()) == sp_parse(
                chars@,
                cur as int,
                end as int,
                opt_defs@,
                po_opts(po),
                po_free(po),
            ),
        decreases end - cur,
    {
        let j = match next_nonblank_at(&chars, cur, end) {
            None => {
                return Err(ParseError::new(ParseErrorKind::UnexpectedEnd));
            },
            Some(j) => j,
        };
        let ghost opts0 = po_opts(po);
        let ghost free0 = po_free(po);
        let step = if chars[j] == '-' {
            parse_opt_at(&chars, j + 1, end, opt_defs, &mut po)
        } else {
            parse_free_at(&chars, j, end, &mut po)
        };
        match step {
            Err(e) => {
                return Err(e);
            },
            Ok(p) => {
                proof {
                    lemma_step_progress(chars@, j as int, end as int, opt_defs@, opts0, free0);
                }
                if p >= end {
                    return Ok(po);
                }
                cur = p;
            },
        }
    }
}


/// Index of the first recorded occurrence of the option named `name`.
pub open spec fn first_opt(opts: Seq<Opt>, name: Seq<char>, k: int) -> Option<int>
    decreases opts.len() - k,
{
    if k < 0 || k >= opts.len() {
        None
    } else if opts[k].name@ == name {
        Some(k)
    } else {
        first_opt(opts, name, k + 1)
    }
}

fn clone_strings(v: &Vec<String>) -> (r: Vec<String>)
    ensures
        strs_model(r@) == strs_model(v@),
{
    let mut r: Vec<String> = Vec::new();
    let mut i: usize = 0;
    let n = v.len();
    while i < n
        invariant
            i <= n == v@.len(),
            r@.len() == i,
            forall|j: int| 0 <= j < i ==> r@[j]@ == v@[j]@,
        decreases n - i,
    {
        r.push(v[i].clone());
        i = i + 1;
    }
    proof {
        assert(strs_model(r@) =~= strs_model(v@));
    }
    r
}

impl ParsedOpts {
    /// The arguments of the first occurrence of the option named `name`, or
    /// nothing if it was not given.
    pub fn get_or_empty(&self, name: &str) -> (r: Vec<String>)
        ensures
            first_opt(self.opts@, name@, 0) matches Some(k) ==> strs_model(r@) == strs_model(
                self.opts@[k].args@,
            ),
            first_opt(self.opts@, name@, 0) is None ==> r@.len() == 0,
    {
        let n = self.opts.len();
        let mut k: usize = 0;
        while k < n
            invariant
                k <= n == self.opts@.len(),
                first_opt(self.opts@, name@, 0) == first_opt(self.opts@, name@, k as int),
            decreases n - k,
        {
            if strutil::str_eq(self.opts[k].name.as_str(), name) {
                return clone_strings(&self.opts[k].args);
            }
            k = k + 1;
        }
        Vec::new()
    }

    /// Whether the option named `name` was given at least once.
    pub fn given(&self, name: &str) -> (r: bool)
        ensures
            r == (first_opt(self.opts@, name@, 0) is Some),
    {
        let n = self.opts.len();
        let mut k: usize = 0;
        while k < n
            invariant
                k <= n == self.opts@.len(),
                first_opt(self.opts@, name@, 0) == first_opt(self.opts@, name@, k as int),
            decreases n - k,
        {
            if strutil::str_eq(self.opts[k].name.as_str(), name) {
                return true;
            }
            k = k + 1;
        }
        false
    }
}

} // verus!
