use vstd::prelude::*;

use crate::property::{
    is_alpha, is_name_char, Formula, Prop, CONJONCTION, DISJONCTION, EQUIVALENCE, IMPLICATION,
    NEGATION,
};
use crate::sequent::{formulas, Entailment, Sequent};
use crate::text::{chars_of, string_of, sub_chars};

verus! {

/// Why a formula or a sequent could not be read.
#[derive(Clone, Copy, Debug, PartialEq, Eq, Structural)]
pub enum ParseError {
    /// An operator is cut short by the end of the text.
    UnexpectedEndOfStream,
    /// A character that no token starts with, or a broken operator.
    UnexpectedCharacter,
    /// A `(` that is never closed.
    ClosingParenthesisExpected,
    /// A `)` that closes nothing.
    UnexpectedClosingParenthesis,
    /// Nothing where a formula should be.
    EmptyExpression,
    /// A `~` with something on its left.
    NegationNotBinary,
    /// Several tokens and no operator among them outside parentheses.
    OperatorNotFound,
    /// A sequent without its `|-`, or with more than one.
    SequentSymbol,
}

impl ParseError {
    /// A short description of the error.
    pub fn message(&self) -> &'static str {
        match self {
            ParseError::UnexpectedEndOfStream => "unexpected end of stream",
            ParseError::UnexpectedCharacter => "unexpected character",
            ParseError::ClosingParenthesisExpected => "closing parenthesis expected",
            ParseError::UnexpectedClosingParenthesis => "unexpected closing parenthesis",
            ParseError::EmptyExpression => "empty expression",
            ParseError::NegationNotBinary => "negation is not a binary operator",
            ParseError::OperatorNotFound => "operator not found",
            ParseError::SequentSymbol => "expecting exactly one sequent symbol",
        }
    }
}

/// A token of the formula language.
pub enum Token {
    Open,
    Close,
    False,
    Name(Seq<char>),
    And,
    Or,
    Imp,
    Iff,
    Not,
}

/// A token as the lexer produces it.
pub enum LexItem {
    Open,
    Close,
    False,
    Name(Vec<char>),
    Conjonction,
    Disjonction,
    Implication,
    Equivalence,
    Negation,
}

impl View for LexItem {
    type V = Token;

    open spec fn view(&self) -> Token {
        match self {
            LexItem::Open => Token::Open,
            LexItem::Close => Token::Close,
            LexItem::False => Token::False,
            LexItem::Name(n) => Token::Name(n@),
            LexItem::Conjonction => Token::And,
            LexItem::Disjonction => Token::Or,
            LexItem::Implication => Token::Imp,
            LexItem::Equivalence => Token::Iff,
            LexItem::Negation => Token::Not,
        }
    }
}

/// The tokens that a list of [`LexItem`]s stands for.
pub open spec fn tokens(items: Seq<LexItem>) -> Seq<Token> {
    items.map_values(|i: LexItem| i@)
}

/// `r` with `prefix` put before the tokens, errors kept.
pub open spec fn after(prefix: Seq<Token>, r: Result<Seq<Token>, ParseError>) -> Result<
    Seq<Token>,
    ParseError,
> {
    match r {
        Ok(t) => Ok(prefix + t),
        Err(e) => Err(e),
    }
}

/// `s` holds a `)` that closes a group opened `d` levels above its start.
pub open spec fn closes(s: Seq<char>, d: nat) -> bool
    decreases s.len(),
{
    if s.len() == 0 {
        false
    } else if s[0] == ')' {
        d == 0 || closes(s.drop_first(), (d - 1) as nat)
    } else if s[0] == '(' {
        closes(s.drop_first(), d + 1)
    } else {
        closes(s.drop_first(), d)
    }
}

/// The length of the run of name characters at the start of `s`.
pub open spec fn name_len(s: Seq<char>) -> nat
    decreases s.len(),
{
    if s.len() == 0 || !is_name_char(s[0]) {
        0
    } else {
        1 + name_len(s.drop_first())
    }
}

/// A run of name characters fits in the text it starts.
pub proof fn lemma_name_len(s: Seq<char>)
    ensures
        name_len(s) <= s.len(),
        s.len() > 0 && is_name_char(s[0]) ==> name_len(s) >= 1,
    decreases s.len(),
{
    if s.len() > 0 && is_name_char(s[0]) {
        lemma_name_len(s.drop_first());
    }
}

#[via_fn]
proof fn lex_decreases(s: Seq<char>, depth: nat) {
    lemma_name_len(s);
}

/// The tokens of `s`, read inside `depth` open groups. Spaces separate tokens; a `(`
/// must be closed later on, a `)` must close a group; the first fault met from the
/// left is the error.
#[verifier::opaque]
pub open spec fn lex(s: Seq<char>, depth: nat) -> Result<Seq<Token>, ParseError>
    decreases s.len(),
    via lex_decreases
{
    if s.len() == 0 {
        Ok(seq![])
    } else {
        let c = s[0];
        let rest = s.drop_first();
        if c == ' ' {
            lex(rest, depth)
        } else if c == '(' {
            if closes(rest, 0) {
                after(seq![Token::Open], lex(rest, depth + 1))
            } else {
                Err(ParseError::ClosingParenthesisExpected)
            }
        } else if c == ')' {
            if depth == 0 {
                Err(ParseError::UnexpectedClosingParenthesis)
            } else {
                after(seq![Token::Close], lex(rest, (depth - 1) as nat))
            }
        } else if c == '!' {
            after(seq![Token::False], lex(rest, depth))
        } else if c == '~' {
            after(seq![Token::Not], lex(rest, depth))
        } else if c == '/' || c == '\\' || c == '-' {
            let (next, tok) = if c == '/' {
                ('\\', Token::And)
            } else if c == '\\' {
                ('/', Token::Or)
            } else {
                ('>', Token::Imp)
            };
            if s.len() < 2 {
                Err(ParseError::UnexpectedEndOfStream)
            } else if s[1] != next {
                Err(ParseError::UnexpectedCharacter)
            } else {
                after(seq![tok], lex(s.skip(2), depth))
            }
        } else if c == '<' {
            if s.len() < 2 {
                Err(ParseError::UnexpectedEndOfStream)
            } else if s[1] != '-' {
                Err(ParseError::UnexpectedCharacter)
            } else if s.len() < 3 {
                Err(ParseError::UnexpectedEndOfStream)
            } else if s[2] != '>' {
                Err(ParseError::UnexpectedCharacter)
            } else {
                after(seq![Token::Iff], lex(s.skip(3), depth))
            }
        } else if is_alpha(c) {
            let n = name_len(s) as int;
            after(seq![Token::Name(s.take(n))], lex(s.skip(n), depth))
        } else {
            Err(ParseError::UnexpectedCharacter)
        }
    }
}

/// How a token moves the nesting depth.
pub open spec fn delta(t: Token) -> int {
    match t {
        Token::Open => 1,
        Token::Close => -1,
        _ => 0,
    }
}

/// The nesting depth after the tokens `t`: groups opened minus groups closed.
pub open spec fn depth_of(t: Seq<Token>) -> int
    decreases t.len(),
{
    if t.len() == 0 {
        0
    } else {
        depth_of(t.drop_last()) + delta(t.last())
    }
}

/// The precedence of an operator token; 0 for the other tokens.
pub open spec fn op_prec(t: Token) -> u8 {
    match t {
        Token::And => CONJONCTION,
        Token::Or => DISJONCTION,
        Token::Imp => IMPLICATION,
        Token::Iff => EQUIVALENCE,
        Token::Not => NEGATION,
        _ => 0,
    }
}

/// Among the first `k` tokens of `t`, the index of the operator outside every group
/// that binds most loosely; of several such, the leftmost.
pub open spec fn split(t: Seq<Token>, k: int) -> Option<int>
    decreases k,
{
    if k <= 0 {
        None
    } else {
        let prev = split(t, k - 1);
        let i = k - 1;
        if depth_of(t.take(i)) == 0 && op_prec(t[i]) > 0 && (prev is None || op_prec(t[i])
            > op_prec(t[prev->0])) {
            Some(i)
        } else {
            prev
        }
    }
}

/// `t` is one group: a `(` and the `)` that closes it.
pub open spec fn enclosed(t: Seq<Token>) -> bool {
    &&& t.len() >= 2
    &&& t[0] is Open
    &&& t.last() is Close
    &&& forall|i: int| 1 <= i < t.len() ==> depth_of(#[trigger] t.take(i)) > 0
}

/// The formula built by a binary operator token.
pub open spec fn combine(op: Token, l: Formula, r: Formula) -> Formula {
    match op {
        Token::And => Formula::And(Box::new(l), Box::new(r)),
        Token::Or => Formula::Or(Box::new(l), Box::new(r)),
        Token::Imp => Formula::Imp(Box::new(l), Box::new(r)),
        _ => Formula::Iff(Box::new(l), Box::new(r)),
    }
}

/// The formula that the tokens `t` spell. A group is read inside its parentheses;
/// otherwise `t` is split at the operator that [`split`] picks, which makes chains of
/// one operator nest to the right; `~` takes everything on its right.
pub open spec fn parse(t: Seq<Token>) -> Result<Formula, ParseError>
    decreases t.len(),
    via parse_decreases
{
    if t.len() == 0 {
        Err(ParseError::EmptyExpression)
    } else if t.len() == 1 && t[0] is False {
        Ok(Formula::False)
    } else if t.len() == 1 && t[0] is Name {
        Ok(Formula::Var(t[0]->Name_0))
    } else if enclosed(t) {
        parse(t.subrange(1, t.len() - 1))
    } else {
        match split(t, t.len() as int) {
            None => Err(ParseError::OperatorNotFound),
            Some(i) => if t[i] is Not {
                if i == 0 {
                    match parse(t.skip(1)) {
                        Ok(f) => Ok(f.not()),
                        Err(e) => Err(e),
                    }
                } else {
                    Err(ParseError::NegationNotBinary)
                }
            } else {
                match parse(t.take(i)) {
                    Err(e) => Err(e),
                    Ok(l) => match parse(t.skip(i + 1)) {
                        Err(e) => Err(e),
                        Ok(r) => Ok(combine(t[i], l, r)),
                    },
                }
            },
        }
    }
}

/// The formula that the text `s` spells, or the first fault found in it.
pub open spec fn parse_text(s: Seq<char>) -> Result<Formula, ParseError> {
    match lex(s, 0) {
        Ok(t) => parse(t),
        Err(e) => Err(e),
    }
}

#[via_fn]
proof fn parse_decreases(t: Seq<Token>) {
    lemma_split_in_range(t, t.len() as int);
}

/// `split` only picks an index inside the tokens it looks at.
pub(crate) proof fn lemma_split_in_range(t: Seq<Token>, k: int)
    requires
        k <= t.len(),
    ensures
        split(t, k) matches Some(i) ==> 0 <= i < k && op_prec(t[i]) > 0,
    decreases k,
{
    if k > 0 {
        lemma_split_in_range(t, k - 1);
    }
}

pub(crate) proof fn lemma_after_after(p: Seq<Token>, q: Seq<Token>, r: Result<Seq<Token>, ParseError>)
    ensures
        after(p, after(q, r)) == after(p + q, r),
{
    match r {
        Ok(v) => assert(p + (q + v) == (p + q) + v),
        Err(_) => {},
    }
}

/// Whether the text from `start` on closes the group opened just before it.
fn closes_from(s: &Vec<char>, start: usize) -> (r: bool)
    requires
        start <= s@.len(),
    ensures
        r == closes(s@.skip(start as int), 0),
{
    let mut j: usize = start;
    let mut d: usize = 0;
    while j < s.len()
        invariant
            start <= j <= s@.len(),
            d <= j - start,
            closes(s@.skip(start as int), 0) == closes(s@.skip(j as int), d as nat),
        decreases s@.len() - j,
    {
        let c = s[j];
        assert(s@.skip(j as int).drop_first() == s@.skip(j + 1));
        if c == ')' {
            if d == 0 {
                return true;
            }
            d = d - 1;
        } else if c == '(' {
            d = d + 1;
        }
        j = j + 1;
    }
    false
}

/// Appends `item` to `out`.
fn emit(out: &mut Vec<LexItem>, item: LexItem)
    ensures
        tokens(final(out)@) == tokens(old(out)@) + seq![item@],
{
    let ghost prev = out@;
    out.push(item);
    assert(tokens(out@) =~= tokens(prev) + seq![item@]);
}

/// The tokens of the characters `s`.
pub fn lex_chars(s: &Vec<char>) -> (r: Result<Vec<LexItem>, ParseError>)
    ensures
        match lex(s@, 0) {
            Ok(t) => r matches Ok(v) && tokens(v@) == t,
            Err(e) => r == Err::<Vec<LexItem>, ParseError>(e),
        },
{
    let mut out: Vec<LexItem> = Vec::new();
    let mut i: usize = 0;
    let mut depth: usize = 0;
    let n = s.len();
    assert(s@.skip(0) == s@);
    while i < n
        invariant
            n == s@.len(),
            i <= n,
            depth <= i,
            lex(s@, 0) == after(tokens(out@), lex(s@.skip(i as int), depth as nat)),
        decreases n - i,
    {
        proof {
            reveal(lex);
        }
        let ghost t = s@.skip(i as int);
        let ghost before = tokens(out@);
        let ghost d0 = depth as nat;
        let ghost mut added: Seq<Token> = seq![];
        assert(t.drop_first() == s@.skip(i + 1));
        assert(t[0] == s@[i as int]);
        let c = s[i];
        if c == ' ' {
            i = i + 1;
            assert(lex(t, d0) == after(seq![], lex(s@.skip(i as int), depth as nat))) by {
                match lex(s@.skip(i as int), depth as nat) {
                    Ok(v) => assert(seq![] + v == v),
                    Err(_) => {},
                }
            }
        } else if c == '(' {
            if !closes_from(s, i + 1) {
                return Err(ParseError::ClosingParenthesisExpected);
            }
            emit(&mut out, LexItem::Open);
            depth = depth + 1;
            i = i + 1;
            assert(lex(t, d0) == after(seq![Token::Open], lex(s@.skip(i as int), depth as nat)));
            proof {
                added = seq![Token::Open];
            }
        } else if c == ')' {
            if depth == 0 {
                return Err(ParseError::UnexpectedClosingParenthesis);
            }
            emit(&mut out, LexItem::Close);
            depth = depth - 1;
            i = i + 1;
            assert(lex(t, d0) == after(seq![Token::Close], lex(s@.skip(i as int), depth as nat)));
            proof {
                added = seq![Token::Close];
            }
        } else if c == '!' {
            emit(&mut out, LexItem::False);
            i = i + 1;
            assert(lex(t, d0) == after(seq![Token::False], lex(s@.skip(i as int), depth as nat)));
            proof {
                added = seq![Token::False];
            }
        } else if c == '~' {
            emit(&mut out, LexItem::Negation);
            i = i + 1;
            assert(lex(t, d0) == after(seq![Token::Not], lex(s@.skip(i as int), depth as nat)));
            proof {
                added = seq![Token::Not];
            }
        } else if c == '/' || c == '\\' || c == '-' {
            let (next, item) = if c == '/' {
                ('\\', LexItem::Conjonction)
            } else if c == '\\' {
                ('/', LexItem::Disjonction)
            } else {
                ('>', LexItem::Implication)
            };
            if i + 1 >= n {
                return Err(ParseError::UnexpectedEndOfStream);
            }
            assert(t[1] == s@[i + 1]);
            if s[i + 1] != next {
                return Err(ParseError::UnexpectedCharacter);
            }
            let ghost tok = item@;
            emit(&mut out, item);
            assert(t.skip(2) == s@.skip(i + 2));
            i = i + 2;
            assert(lex(t, d0) == after(seq![tok], lex(s@.skip(i as int), depth as nat)));
            proof {
                added = seq![tok];
            }
        } else if c == '<' {
            if i + 1 >= n {
                return Err(ParseError::UnexpectedEndOfStream);
            }
            assert(t[1] == s@[i + 1]);
            if s[i + 1] != '-' {
                return Err(ParseError::UnexpectedCharacter);
            }
            if i + 2 >= n {
                return Err(ParseError::UnexpectedEndOfStream);
            }
            assert(t[2] == s@[i + 2]);
            if s[i + 2] != '>' {
                return Err(ParseError::UnexpectedCharacter);
            }
            emit(&mut out, LexItem::Equivalence);
            assert(t.skip(3) == s@.skip(i + 3));
            i = i + 3;
            assert(lex(t, d0) == after(seq![Token::Iff], lex(s@.skip(i as int), depth as nat)));
            proof {
                added = seq![Token::Iff];
            }
        } else if ('A' <= c && c <= 'Z') || ('a' <= c && c <= 'z') {
            let mut name: Vec<char> = Vec::new();
            let mut j: usize = i;
            while j < n && (('A' <= s[j] && s[j] <= 'Z') || ('a' <= s[j] && s[j] <= 'z') || (
            '0' <= s[j] && s[j] <= '9') || s[j] == '_')
                invariant
                    n == s@.len(),
                    i <= j <= n,
                    name@ == s@.subrange(i as int, j as int),
                    name_len(t) == (j - i) + name_len(s@.skip(j as int)),
                decreases n - j,
            {
                assert(s@.skip(j as int).drop_first() == s@.skip(j + 1));
                assert(s@.skip(j as int)[0] == s@[j as int]);
                name.push(s[j]);
                assert(name@ == s@.subrange(i as int, j + 1));
                j = j + 1;
            }
            assert(name_len(s@.skip(j as int)) == 0) by {
                if j < n {
                    assert(s@.skip(j as int)[0] == s@[j as int]);
                }
            }
            assert(t.take(j - i) == s@.subrange(i as int, j as int));
            assert(t.skip(j - i) == s@.skip(j as int));
            let ghost nm = name@;
            emit(&mut out, LexItem::Name(name));
            i = j;
            assert(lex(t, d0) == after(seq![Token::Name(nm)], lex(s@.skip(i as int), depth as nat)));
            proof {
                added = seq![Token::Name(nm)];
            }
        } else {
            return Err(ParseError::UnexpectedCharacter);
        }
        proof {
            lemma_after_after(before, added, lex(s@.skip(i as int), depth as nat));
        }
    }
    assert(s@.skip(n as int).len() == 0);
    assert(tokens(out@) + seq![] == tokens(out@));
    reveal(lex);
    Ok(out)
}

/// One more token adds its step to the depth.
pub(crate) proof fn lemma_depth_step(t: Seq<Token>, k: int)
    requires
        0 <= k < t.len(),
    ensures
        depth_of(t.take(k + 1)) == depth_of(t.take(k)) + delta(t[k]),
{
    assert(t.take(k + 1).drop_last() == t.take(k));
}

/// The precedence of an operator token; 0 for the other tokens.
fn prec_of(item: &LexItem) -> (r: u8)
    ensures
        r == op_prec(item@),
{
    match item {
        LexItem::Conjonction => CONJONCTION,
        LexItem::Disjonction => DISJONCTION,
        LexItem::Implication => IMPLICATION,
        LexItem::Equivalence => EQUIVALENCE,
        LexItem::Negation => NEGATION,
        _ => 0,
    }
}

/// The tokens `lo..hi` of `t`.
pub open spec fn slice_of(t: Seq<LexItem>, lo: int, hi: int) -> Seq<Token> {
    tokens(t).subrange(lo, hi)
}

/// The operator at which the tokens `lo..hi` of `t` are split, as [`split`] picks it.
fn split_range(t: &Vec<LexItem>, lo: usize, hi: usize) -> (r: Option<usize>)
    requires
        lo <= hi <= t@.len(),
    ensures
        match split(slice_of(t@, lo as int, hi as int), hi - lo) {
            None => r is None,
            Some(k) => r == Some((k + lo) as usize),
        },
{
    let ghost sub = slice_of(t@, lo as int, hi as int);
    let mut j: usize = lo;
    let mut opens: usize = 0;
    let mut closes: usize = 0;
    let mut best: Option<usize> = None;
    let mut best_prec: u8 = 0;
    while j < hi
        invariant
            lo <= j <= hi <= t@.len(),
            sub == slice_of(t@, lo as int, hi as int),
            opens <= j - lo,
            closes <= j - lo,
            depth_of(sub.take(j - lo)) == opens - closes,
            match split(sub, j - lo) {
                None => best is None,
                Some(k) => best == Some((k + lo) as usize) && best_prec == op_prec(sub[k]) && 0
                    <= k < j - lo,
            },
        decreases hi - j,
    {
        let ghost k = j - lo;
        assert(sub[k] == t@[j as int]@);
        proof {
            lemma_depth_step(sub, k);
        }
        let p = prec_of(&t[j]);
        if opens == closes && p > 0 && (best.is_none() || p > best_prec) {
            best = Some(j);
            best_prec = p;
        }
        match &t[j] {
            LexItem::Open => opens = opens + 1,
            LexItem::Close => closes = closes + 1,
            _ => {},
        }
        j = j + 1;
    }
    best
}

/// Whether the tokens `lo..hi` of `t` form one group.
fn enclosed_range(t: &Vec<LexItem>, lo: usize, hi: usize) -> (r: bool)
    requires
        lo <= hi <= t@.len(),
    ensures
        r == enclosed(slice_of(t@, lo as int, hi as int)),
{
    let ghost sub = slice_of(t@, lo as int, hi as int);
    if hi - lo < 2 {
        return false;
    }
    assert(sub[0] == t@[lo as int]@);
    assert(sub.last() == t@[hi - 1]@);
    match &t[lo] {
        LexItem::Open => {},
        _ => return false,
    }
    match &t[hi - 1] {
        LexItem::Close => {},
        _ => return false,
    }
    proof {
        lemma_depth_step(sub, 0);
    }
    assert(sub.take(0).len() == 0);
    let mut j: usize = lo + 1;
    let mut opens: usize = 1;
    let mut closes: usize = 0;
    while j < hi
        invariant
            lo < j <= hi <= t@.len(),
            hi - lo >= 2,
            sub == slice_of(t@, lo as int, hi as int),
            opens <= j - lo,
            closes <= j - lo,
            depth_of(sub.take(j - lo)) == opens - closes,
            forall|i: int| 1 <= i < j - lo ==> depth_of(#[trigger] sub.take(i)) > 0,
        decreases hi - j,
    {
        if opens <= closes {
            assert(depth_of(sub.take(j - lo)) <= 0);
            return false;
        }
        let ghost k = j - lo;
        assert(sub[k] == t@[j as int]@);
        proof {
            lemma_depth_step(sub, k);
        }
        match &t[j] {
            LexItem::Open => opens = opens + 1,
            LexItem::Close => closes = closes + 1,
            _ => {},
        }
        j = j + 1;
    }
    true
}

/// The formula that the tokens `lo..hi` of `t` spell.
#[verifier::rlimit(40)]
fn parse_range(t: &Vec<LexItem>, lo: usize, hi: usize) -> (r: Result<Prop, ParseError>)
    requires
        lo <= hi <= t@.len(),
    ensures
        match parse(slice_of(t@, lo as int, hi as int)) {
            Ok(f) => r matches Ok(p) && p@ == f,
            Err(e) => r matches Err(e2) && e2 == e,
        },
    decreases hi - lo,
{
    let ghost sub = slice_of(t@, lo as int, hi as int);
    if lo == hi {
        return Err(ParseError::EmptyExpression);
    }
    if hi - lo == 1 {
        assert(sub[0] == t@[lo as int]@);
        match &t[lo] {
            LexItem::False => return Ok(Prop::False),
            LexItem::Name(n) => return Ok(Prop::Variable(string_of(n.as_slice()))),
            _ => {},
        }
    }
    if enclosed_range(t, lo, hi) {
        assert(sub.subrange(1, sub.len() - 1) == slice_of(t@, lo + 1, hi - 1));
        return parse_range(t, lo + 1, hi - 1);
    }
    match split_range(t, lo, hi) {
        None => Err(ParseError::OperatorNotFound),
        Some(i) => {
            proof {
                lemma_split_in_range(sub, sub.len() as int);
            }
            assert(sub[i - lo] == t@[i as int]@);
            match &t[i] {
                LexItem::Negation => {
                    if i == lo {
                        assert(sub.skip(1) == slice_of(t@, lo + 1, hi as int));
                        match parse_range(t, lo + 1, hi) {
                            Ok(p) => Ok(p.negate()),
                            Err(e) => Err(e),
                        }
                    } else {
                        Err(ParseError::NegationNotBinary)
                    }
                },
                item => {
                    assert(sub.take(i - lo) == slice_of(t@, lo as int, i as int));
                    assert(sub.skip(i - lo + 1) == slice_of(t@, i + 1, hi as int));
                    let l = match parse_range(t, lo, i) {
                        Ok(l) => l,
                        Err(e) => return Err(e),
                    };
                    let r = match parse_range(t, i + 1, hi) {
                        Ok(r) => r,
                        Err(e) => return Err(e),
                    };
                    let b = (Box::new(l), Box::new(r));
                    match item {
                        LexItem::Conjonction => Ok(Prop::Conjonction(b.0, b.1)),
                        LexItem::Disjonction => Ok(Prop::Disjonction(b.0, b.1)),
                        LexItem::Implication => Ok(Prop::Implication(b.0, b.1)),
                        _ => Ok(Prop::Equivalence(b.0, b.1)),
                    }
                },
            }
        },
    }
}

/// Reads a formula from the characters `s`.
pub fn parse_chars(s: &Vec<char>) -> (r: Result<Prop, ParseError>)
    ensures
        match parse_text(s@) {
            Ok(f) => r matches Ok(p) && p@ == f,
            Err(e) => r matches Err(e2) && e2 == e,
        },
{
    match lex_chars(s) {
        Ok(items) => {
            assert(slice_of(items@, 0, items@.len() as int) == tokens(items@));
            parse_range(&items, 0, items.len())
        },
        Err(e) => Err(e),
    }
}

/// Reads a formula from the text `s`.
pub fn parse_prop(s: &str) -> (r: Result<Prop, ParseError>)
    ensures
        match parse_text(s@) {
            Ok(f) => r matches Ok(p) && p@ == f,
            Err(e) => r matches Err(e2) && e2 == e,
        },
{
    parse_chars(&chars_of(s))
}

impl std::str::FromStr for Prop {
    type Err = ParseError;

    fn from_str(s: &str) -> Result<Prop, ParseError> {
        parse_prop(s)
    }
}

/// The first index from `k` on where `s` holds `c`.
pub open spec fn find_char(s: Seq<char>, c: char, k: int) -> Option<int>
    decreases s.len() - k,
{
    if k < 0 || k >= s.len() {
        None
    } else if s[k] == c {
        Some(k)
    } else {
        find_char(s, c, k + 1)
    }
}

/// The first index from `k` on where `s` holds the sequent symbol `|-`.
pub open spec fn find_turnstile(s: Seq<char>, k: int) -> Option<int>
    decreases s.len() - k,
{
    if k < 0 || k + 1 >= s.len() {
        None
    } else if s[k] == '|' && s[k + 1] == '-' {
        Some(k)
    } else {
        find_turnstile(s, k + 1)
    }
}

/// The pieces of `s` between its commas.
pub open spec fn comma_pieces(s: Seq<char>) -> Seq<Seq<char>>
    decreases s.len(),
{
    match find_char(s, ',', 0) {
        None => seq![s],
        Some(i) => if 0 <= i < s.len() {
            seq![s.take(i)] + comma_pieces(s.skip(i + 1))
        } else {
            seq![s]
        },
    }
}

/// `s` holds only white space.
pub open spec fn is_blank(s: Seq<char>) -> bool {
    forall|i: int| 0 <= i < s.len() ==> #[trigger] blank_char(s[i])
}

pub open spec fn blank_char(c: char) -> bool {
    c == ' ' || c == '\t' || c == '\n' || c == '\r'
}

/// The formulas of the texts `ps`, read from the first; the first fault is the error.
pub open spec fn parse_all(ps: Seq<Seq<char>>) -> Result<Seq<Formula>, ParseError>
    decreases ps.len(),
{
    if ps.len() == 0 {
        Ok(seq![])
    } else {
        match parse_text(ps[0]) {
            Err(e) => Err(e),
            Ok(f) => match parse_all(ps.drop_first()) {
                Err(e) => Err(e),
                Ok(fs) => Ok(seq![f] + fs),
            },
        }
    }
}

/// The sequent that the text `s` spells: `H1, ..., Hn |- C`, with nothing but white
/// space before `|-` where there are no hypotheses. The text holds exactly one `|-`;
/// hypotheses are read before the conclusion.
pub open spec fn parse_sequent_text(s: Seq<char>) -> Result<Entailment, ParseError> {
    match find_turnstile(s, 0) {
        None => Err(ParseError::SequentSymbol),
        Some(i) => {
            let left = s.take(i);
            let right = s.skip(i + 2);
            if find_turnstile(right, 0) is Some {
                Err(ParseError::SequentSymbol)
            } else {
                let hs = if is_blank(left) {
                    Ok(seq![])
                } else {
                    parse_all(comma_pieces(left))
                };
                match hs {
                    Err(e) => Err(e),
                    Ok(h) => match parse_text(right) {
                        Err(e) => Err(e),
                        Ok(c) => Ok(Entailment { hypotheses: h, conclusion: c }),
                    },
                }
            }
        },
    }
}

/// The first index from `k` on where `s` holds `c`.
pub fn find_char_from(s: &Vec<char>, c: char, k: usize) -> (r: Option<usize>)
    ensures
        match find_char(s@, c, k as int) {
            None => r is None,
            Some(i) => r matches Some(x) && x as int == i && k <= i < s@.len(),
        },
{
    let mut i: usize = k;
    while i < s.len()
        invariant
            k <= i,
            find_char(s@, c, k as int) == find_char(s@, c, i as int),
        decreases s@.len() - i,
    {
        if s[i] == c {
            return Some(i);
        }
        i = i + 1;
    }
    None
}

/// The first index from `k` on where `s` holds `|-`.
pub fn find_turnstile_from(s: &Vec<char>, k: usize) -> (r: Option<usize>)
    ensures
        match find_turnstile(s@, k as int) {
            None => r is None,
            Some(i) => r matches Some(x) && x as int == i && k <= i && i + 1 < s@.len(),
        },
{
    let mut i: usize = k;
    while i < s.len() && i + 1 < s.len()
        invariant
            k <= i,
            find_turnstile(s@, k as int) == find_turnstile(s@, i as int),
        decreases s@.len() - i,
    {
        if s[i] == '|' && s[i + 1] == '-' {
            return Some(i);
        }
        i = i + 1;
    }
    None
}

/// Whether `s` holds only white space.
fn blank(s: &Vec<char>) -> (r: bool)
    ensures
        r == is_blank(s@),
{
    let mut i: usize = 0;
    while i < s.len()
        invariant
            i <= s@.len(),
            forall|j: int| 0 <= j < i ==> #[trigger] blank_char(s@[j]),
        decreases s@.len() - i,
    {
        let c = s[i];
        if !(c == ' ' || c == '\t' || c == '\n' || c == '\r') {
            assert(!blank_char(s@[i as int]));
            return false;
        }
        i = i + 1;
    }
    true
}

/// The formulas of the comma-separated list `s`.
fn parse_list(s: &Vec<char>) -> (r: Result<Vec<Prop>, ParseError>)
    ensures
        match parse_all(comma_pieces(s@)) {
            Ok(fs) => r matches Ok(v) && formulas(v@) == fs,
            Err(e) => r matches Err(e2) && e2 == e,
        },
{
    let mut out: Vec<Prop> = Vec::new();
    let mut start: usize = 0;
    let len = s.len();
    assert(s@.skip(0) == s@);
    loop
        invariant
            start <= s@.len(),
            len == s@.len(),
            parse_all(comma_pieces(s@)) == (match parse_all(comma_pieces(s@.skip(start as int))) {
                Err(e) => Err(e),
                Ok(fs) => Ok(formulas(out@) + fs),
            }),
        decreases s@.len() - start,
    {
        let ghost rest = s@.skip(start as int);
        let ghost before = out@;
        match find_char_from(s, ',', start) {
            None => {
                proof {
                    lemma_find_char_shift(s@, ',', start as int, 0);
                }
                let piece = sub_chars(s, start, s.len());
                assert(piece@ == rest);
                assert(comma_pieces(rest) == seq![rest]);
                assert(seq![rest].drop_first() =~= Seq::<Seq<char>>::empty());
                assert(parse_all(seq![rest].drop_first()) == Ok::<Seq<Formula>, ParseError>(
                    seq![],
                ));
                match parse_chars(&piece) {
                    Err(e) => return Err(e),
                    Ok(p) => {
                        out.push(p);
                        assert(formulas(out@) =~= formulas(before) + seq![p@]);
                        assert(seq![p@] + Seq::<Formula>::empty() == seq![p@]);
                        return Ok(out);
                    },
                }
            },
            Some(i) => {
                proof {
                    lemma_find_char_shift(s@, ',', start as int, 0);
                }
                let piece = sub_chars(s, start, i);
                assert(piece@ == rest.take(i - start));
                assert(rest.skip(i - start + 1) == s@.skip(i + 1));
                let ghost pieces = comma_pieces(rest);
                assert(pieces == seq![rest.take(i - start)] + comma_pieces(s@.skip(i + 1)));
                assert(pieces[0] == piece@);
                assert(pieces.drop_first() == comma_pieces(s@.skip(i + 1)));
                match parse_chars(&piece) {
                    Err(e) => return Err(e),
                    Ok(p) => {
                        out.push(p);
                        assert(formulas(out@) =~= formulas(before) + seq![p@]);
                        proof {
                            match parse_all(comma_pieces(s@.skip(i + 1))) {
                                Ok(fs) => {
                                    assert(formulas(before) + (seq![p@] + fs) == formulas(out@)
                                        + fs);
                                },
                                Err(_) => {},
                            }
                        }
                        start = i + 1;
                    },
                }
            },
        }
    }
}

/// `find_char` on a suffix is `find_char` on the whole, shifted.
proof fn lemma_find_char_shift(s: Seq<char>, c: char, start: int, k: int)
    requires
        0 <= start <= s.len(),
        0 <= k,
    ensures
        find_char(s.skip(start), c, k) == (match find_char(s, c, start + k) {
            None => None,
            Some(i) => Some(i - start),
        }),
    decreases s.len() - start - k,
{
    if start + k < s.len() {
        assert(s.skip(start)[k] == s[start + k]);
        lemma_find_char_shift(s, c, start, k + 1);
    }
}

/// Reads a sequent from the text `s`.
pub fn parse_sequent(s: &str) -> (r: Result<Sequent, ParseError>)
    ensures
        match parse_sequent_text(s@) {
            Ok(e) => r matches Ok(q) && q@ == e,
            Err(e) => r matches Err(e2) && e2 == e,
        },
{
    let cs = chars_of(s);
    let len = cs.len();
    match find_turnstile_from(&cs, 0) {
        None => Err(ParseError::SequentSymbol),
        Some(i) => {
            let left = sub_chars(&cs, 0, i);
            let right = sub_chars(&cs, i + 2, len);
            assert(left@ == cs@.take(i as int));
            assert(right@ == cs@.skip(i + 2));
            if find_turnstile_from(&right, 0).is_some() {
                return Err(ParseError::SequentSymbol);
            }
            let hs = if blank(&left) {
                let hs: Vec<Prop> = Vec::new();
                assert(formulas(hs@) =~= Seq::<Formula>::empty());
                hs
            } else {
                match parse_list(&left) {
                    Err(e) => return Err(e),
                    Ok(hs) => hs,
                }
            };
            match parse_chars(&right) {
                Err(e) => Err(e),
                Ok(c) => Ok(Sequent::new(hs, c)),
            }
        },
    }
}

impl std::str::FromStr for Sequent {
    type Err = ParseError;

    fn from_str(s: &str) -> Result<Sequent, ParseError> {
        parse_sequent(s)
    }
}

} // verus!
