//! A recursive-descent parser for the surface syntax of lambda terms:
//! integer literals, identifiers, `{fn arg ...}` application and
//! `|x y ...| body` abstraction, with parentheses for grouping.
//!
//! The grammar is stated as spec functions over the character sequence;
//! each executable parser returns exactly what its spec function says.

use vstd::prelude::*;
use vstd::string::StrSliceExecFns;

use crate::term::{nest_abs, nest_app, Primitive, Term, Untyped};

verus! {

/// True of the space characters the parser skips after each token.
pub open spec fn is_space(c: char) -> bool {
    c == ' ' || c == '\t' || c == '\n' || c == '\r'
}

/// True of the decimal digits `'0'` through `'9'`.
pub open spec fn is_digit(c: char) -> bool {
    48 <= c as u32 && c as u32 <= 57
}

/// True of the letters `'a'` through `'z'` and `'A'` through `'Z'`.
pub open spec fn is_letter(c: char) -> bool {
    (97 <= c as u32 && c as u32 <= 122) || (65 <= c as u32 && c as u32 <= 90)
}

/// True of the characters an identifier is made of: letters and `'-'`.
pub open spec fn is_ident_char(c: char) -> bool {
    is_letter(c) || c == '-'
}

/// The position of the first non-space character at or after `pos`.
pub open spec fn spaces_end(s: Seq<char>, pos: int) -> int
    decreases s.len() - pos,
{
    if 0 <= pos && pos < s.len() && is_space(s[pos]) {
        spaces_end(s, pos + 1)
    } else {
        pos
    }
}

/// The position of the first non-digit character at or after `pos`.
pub open spec fn digits_end(s: Seq<char>, pos: int) -> int
    decreases s.len() - pos,
{
    if 0 <= pos && pos < s.len() && is_digit(s[pos]) {
        digits_end(s, pos + 1)
    } else {
        pos
    }
}

/// The position of the first non-identifier character at or after `pos`.
pub open spec fn ident_end(s: Seq<char>, pos: int) -> int
    decreases s.len() - pos,
{
    if 0 <= pos && pos < s.len() && is_ident_char(s[pos]) {
        ident_end(s, pos + 1)
    } else {
        pos
    }
}

/// The numeric value of a digit character.
pub open spec fn digit_of(c: char) -> int {
    c as u32 - 48
}

/// The decimal value of the digits from `from` (inclusive) to `to`
/// (exclusive).
pub open spec fn digits_value(s: Seq<char>, from: int, to: int) -> int
    decreases to - from,
{
    if to <= from {
        0
    } else {
        digits_value(s, from, to - 1) * 10 + digit_of(s[to - 1])
    }
}

/// One expected punctuation character, with trailing spaces skipped.
pub open spec fn spec_token_char(s: Seq<char>, pos: int, c: char) -> Option<int> {
    if 0 <= pos && pos < s.len() && s[pos] == c {
        Some(spaces_end(s, pos + 1))
    } else {
        None
    }
}

/// One or more digits read as an integer, with trailing spaces skipped;
/// a number too large for the result type is rejected.
pub open spec fn spec_token_integer(s: Seq<char>, pos: int) -> Option<(i64, int)> {
    let end = digits_end(s, pos);
    if pos < end && digits_value(s, pos, end) <= i64::MAX as int {
        Some((digits_value(s, pos, end) as i64, spaces_end(s, end)))
    } else {
        None
    }
}

/// One or more identifier characters, with trailing spaces skipped.
pub open spec fn spec_token_identifier(s: Seq<char>, pos: int) -> Option<(Seq<char>, int)> {
    let end = ident_end(s, pos);
    if pos < end {
        Some((s.subrange(pos, end), spaces_end(s, end)))
    } else {
        None
    }
}

proof fn lemma_spaces_end_bounds(s: Seq<char>, pos: int)
    requires
        0 <= pos <= s.len(),
    ensures
        pos <= spaces_end(s, pos) <= s.len(),
    decreases s.len() - pos,
{
    if pos < s.len() && is_space(s[pos]) {
        lemma_spaces_end_bounds(s, pos + 1);
    }
}

proof fn lemma_digits_end_bounds(s: Seq<char>, pos: int)
    requires
        0 <= pos <= s.len(),
    ensures
        pos <= digits_end(s, pos) <= s.len(),
    decreases s.len() - pos,
{
    if pos < s.len() && is_digit(s[pos]) {
        lemma_digits_end_bounds(s, pos + 1);
    }
}

proof fn lemma_ident_end_bounds(s: Seq<char>, pos: int)
    requires
        0 <= pos <= s.len(),
    ensures
        pos <= ident_end(s, pos) <= s.len(),
    decreases s.len() - pos,
{
    if pos < s.len() && is_ident_char(s[pos]) {
        lemma_ident_end_bounds(s, pos + 1);
    }
}

proof fn lemma_digits_value_nonneg(s: Seq<char>, from: int, to: int)
    requires
        forall|i: int| from <= i < to ==> is_digit(s[i]),
    ensures
        digits_value(s, from, to) >= 0,
    decreases to - from,
{
    if from < to {
        lemma_digits_value_nonneg(s, from, to - 1);
    }
}

/// All characters of a digit run are digits.
proof fn lemma_digits_end_digits(s: Seq<char>, pos: int)
    requires
        0 <= pos <= s.len(),
    ensures
        forall|i: int| pos <= i < digits_end(s, pos) ==> is_digit(s[i]),
    decreases s.len() - pos,
{
    if pos < s.len() && is_digit(s[pos]) {
        lemma_digits_end_digits(s, pos + 1);
    }
}

fn space_char(c: char) -> (r: bool)
    ensures
        r == is_space(c),
{
    c == ' ' || c == '\t' || c == '\n' || c == '\r'
}

fn digit_char(c: char) -> (r: bool)
    ensures
        r == is_digit(c),
{
    let u = c as u32;
    48 <= u && u <= 57
}

fn ident_char(c: char) -> (r: bool)
    ensures
        r == is_ident_char(c),
{
    let u = c as u32;
    (97 <= u && u <= 122) || (65 <= u && u <= 90) || c == '-'
}

/// Skip spaces, returning the position of the first non-space character.
fn skip_spaces(s: &Vec<char>, pos: usize) -> (r: usize)
    requires
        pos as int <= s@.len(),
    ensures
        r as int == spaces_end(s@, pos as int),
        pos <= r <= s@.len(),
    decreases s@.len() - pos as int,
{
    if pos < s.len() && space_char(s[pos]) {
        skip_spaces(s, pos + 1)
    } else {
        pos
    }
}

fn token_char(s: &Vec<char>, pos: usize, c: char) -> (r: Option<usize>)
    requires
        pos as int <= s@.len(),
    ensures
        match r {
            Some(p) => spec_token_char(s@, pos as int, c) == Some(p as int) && pos < p <= s@.len(),
            None => spec_token_char(s@, pos as int, c) is None,
        },
{
    if pos < s.len() && s[pos] == c {
        proof {
            lemma_spaces_end_bounds(s@, pos as int + 1);
        }
        Some(skip_spaces(s, pos + 1))
    } else {
        None
    }
}

/// `(`, with trailing spaces skipped.
pub fn token_left_paren(s: &Vec<char>, pos: usize) -> (r: Option<usize>)
    requires
        pos as int <= s@.len(),
    ensures
        match r {
            Some(p) => spec_token_char(s@, pos as int, '(') == Some(p as int) && pos < p
                <= s@.len(),
            None => spec_token_char(s@, pos as int, '(') is None,
        },
{
    token_char(s, pos, '(')
}

/// `)`, with trailing spaces skipped.
pub fn token_right_paren(s: &Vec<char>, pos: usize) -> (r: Option<usize>)
    requires
        pos as int <= s@.len(),
    ensures
        match r {
            Some(p) => spec_token_char(s@, pos as int, ')') == Some(p as int) && pos < p
                <= s@.len(),
            None => spec_token_char(s@, pos as int, ')') is None,
        },
{
    token_char(s, pos, ')')
}

/// `{`, with trailing spaces skipped.
pub fn token_left_brace(s: &Vec<char>, pos: usize) -> (r: Option<usize>)
    requires
        pos as int <= s@.len(),
    ensures
        match r {
            Some(p) => spec_token_char(s@, pos as int, '{') == Some(p as int) && pos < p
                <= s@.len(),
            None => spec_token_char(s@, pos as int, '{') is None,
        },
{
    token_char(s, pos, '{')
}

/// `}`, with trailing spaces skipped.
pub fn token_right_brace(s: &Vec<char>, pos: usize) -> (r: Option<usize>)
    requires
        pos as int <= s@.len(),
    ensures
        match r {
            Some(p) => spec_token_char(s@, pos as int, '}') == Some(p as int) && pos < p
                <= s@.len(),
            None => spec_token_char(s@, pos as int, '}') is None,
        },
{
    token_char(s, pos, '}')
}

/// `|`, with trailing spaces skipped.
pub fn token_bar(s: &Vec<char>, pos: usize) -> (r: Option<usize>)
    requires
        pos as int <= s@.len(),
    ensures
        match r {
            Some(p) => spec_token_char(s@, pos as int, '|') == Some(p as int) && pos < p
                <= s@.len(),
            None => spec_token_char(s@, pos as int, '|') is None,
        },
{
    token_char(s, pos, '|')
}

/// An integer literal, with trailing spaces skipped.
pub fn token_integer(s: &Vec<char>, pos: usize) -> (r: Option<(i64, usize)>)
    requires
        pos as int <= s@.len(),
    ensures
        match r {
            Some((n, p)) => spec_token_integer(s@, pos as int) == Some((n, p as int)) && pos < p
                <= s@.len(),
            None => spec_token_integer(s@, pos as int) is None,
        },
{
    proof {
        lemma_digits_end_bounds(s@, pos as int);
        lemma_digits_end_digits(s@, pos as int);
    }
    let mut i = pos;
    let mut value: i64 = 0;
    let mut overflow = false;
    while i < s.len() && digit_char(s[i])
        invariant
            pos <= i <= s@.len(),
            i as int <= digits_end(s@, pos as int),
            digits_end(s@, pos as int) == digits_end(s@, i as int),
            forall|j: int| pos <= j < digits_end(s@, pos as int) ==> is_digit(s@[j]),
            !overflow ==> value == digits_value(s@, pos as int, i as int),
            overflow ==> digits_value(s@, pos as int, i as int) > i64::MAX as int,
            value >= 0,
        decreases s@.len() - i as int,
    {
        proof {
            lemma_digits_end_bounds(s@, i as int + 1);
            assert(digits_end(s@, i as int) == digits_end(s@, i as int + 1));
        }
        let u = s[i] as u32;
        let d = (u - 48) as i64;
        if !overflow {
            if value <= (i64::MAX - d) / 10 {
                value = value * 10 + d;
            } else {
                overflow = true;
                proof {
                    lemma_digits_value_nonneg(s@, pos as int, i as int);
                }
            }
        }
        i = i + 1;
    }
    if i == pos {
        return None;
    }
    if overflow {
        proof {
            assert(digits_value(s@, pos as int, digits_end(s@, pos as int)) > i64::MAX as int);
        }
        return None;
    }
    proof {
        lemma_spaces_end_bounds(s@, i as int);
    }
    Some((value, skip_spaces(s, i)))
}

/// Relies on String's FromIterator over characters: collecting a
/// character slice builds the string of exactly those characters.
#[verifier::external_body]
fn string_from_chars(s: &Vec<char>, from: usize, to: usize) -> (r: String)
    requires
        from <= to <= s@.len(),
    ensures
        r@ == s@.subrange(from as int, to as int),
{
    s[from..to].iter().collect()
}

/// The shape of a parsed term with its names as character sequences:
/// what the parser's specification speaks of, since a specification
/// cannot build `String` values.
pub enum TermModel {
    Val(Primitive),
    Var(Seq<char>),
    Abs(Seq<char>, Box<TermModel>),
    App(Box<TermModel>, Box<TermModel>),
    Let(Seq<char>, Option<Box<TermModel>>, Box<TermModel>),
}

/// The model of an unannotated term.
pub open spec fn model_of(t: Untyped<Primitive>) -> TermModel
    decreases t,
{
    match t {
        Term::Val(v) => TermModel::Val(v),
        Term::Var(s) => TermModel::Var(s@),
        Term::Abs(s, _, b) => TermModel::Abs(s@, Box::new(model_of(*b))),
        Term::App(f, a) => TermModel::App(Box::new(model_of(*f)), Box::new(model_of(*a))),
        Term::Let(s, o, b) => TermModel::Let(
            s@,
            match o {
                Some((_, tb)) => Some(Box::new(model_of(*tb))),
                None => None,
            },
            Box::new(model_of(*b)),
        ),
    }
}

/// [`nest_abs`] on models: wrap `t` in one abstraction per name, the
/// first name binding outermost.
pub open spec fn nest_abs_model(ids: Seq<Seq<char>>, t: TermModel) -> TermModel
    decreases ids.len(),
{
    if ids.len() == 0 {
        t
    } else {
        nest_abs_model(ids.drop_last(), TermModel::Abs(ids.last(), Box::new(t)))
    }
}

/// [`nest_app`] on models: apply `f` to each argument in turn, leftmost
/// innermost.
pub open spec fn nest_app_model(f: TermModel, args: Seq<TermModel>) -> TermModel
    decreases args.len(),
{
    if args.len() == 0 {
        f
    } else {
        TermModel::App(Box::new(nest_app_model(f, args.drop_last())), Box::new(args.last()))
    }
}

/// An identifier, with trailing spaces skipped.
pub fn token_identifier(s: &Vec<char>, pos: usize) -> (r: Option<(String, usize)>)
    requires
        pos as int <= s@.len(),
    ensures
        match r {
            Some((id, p)) => spec_token_identifier(s@, pos as int) == Some((id@, p as int)) && pos
                < p <= s@.len(),
            None => spec_token_identifier(s@, pos as int) is None,
        },
{
    proof {
        lemma_ident_end_bounds(s@, pos as int);
    }
    let mut i = pos;
    while i < s.len() && ident_char(s[i])
        invariant
            pos <= i <= s@.len(),
            ident_end(s@, pos as int) == ident_end(s@, i as int),
        decreases s@.len() - i as int,
    {
        i = i + 1;
    }
    if i == pos {
        return None;
    }
    let id = string_from_chars(s, pos, i);
    proof {
        lemma_spaces_end_bounds(s@, i as int);
    }
    Some((id, skip_spaces(s, i)))
}

/// A term: a parenthesised term, an integer literal, an identifier, an
/// application in braces, or an abstraction.
///
/// The position comparisons in this and the following spec functions
/// bound the recursion; they always hold of the positions the token
/// functions return.
pub open spec fn spec_term(s: Seq<char>, pos: int) -> Option<(TermModel, int)>
    decreases s.len() - pos, 3int,
{
    if pos < 0 || pos >= s.len() {
        None
    } else if s[pos] == '(' {
        let p1 = spaces_end(s, pos + 1);
        if pos < p1 && p1 <= s.len() {
            match spec_term(s, p1) {
                Some((t, p2)) => match spec_token_char(s, p2, ')') {
                    Some(p3) => Some((t, p3)),
                    None => None,
                },
                None => None,
            }
        } else {
            None
        }
    } else if is_digit(s[pos]) {
        match spec_token_integer(s, pos) {
            Some((n, p1)) => Some((TermModel::Val(Primitive::Integer(n)), p1)),
            None => None,
        }
    } else if is_ident_char(s[pos]) {
        match spec_token_identifier(s, pos) {
            Some((id, p1)) => Some((TermModel::Var(id), p1)),
            None => None,
        }
    } else if s[pos] == '{' {
        spec_term_app(s, pos)
    } else if s[pos] == '|' {
        spec_term_abs(s, pos)
    } else {
        None
    }
}

/// An application: two or more terms between braces, applied leftmost
/// innermost.
pub open spec fn spec_term_app(s: Seq<char>, pos: int) -> Option<(TermModel, int)>
    decreases s.len() - pos, 0int,
{
    match spec_token_char(s, pos, '{') {
        Some(p1) => if pos < p1 && p1 <= s.len() {
            match spec_term(s, p1) {
                Some((f, p2)) => if p1 < p2 && p2 <= s.len() {
                    match spec_term(s, p2) {
                        Some((a, p3)) => if p2 < p3 && p3 <= s.len() {
                            let (args, p4) = spec_term_list(s, p3);
                            match spec_token_char(s, p4, '}') {
                                Some(p5) => Some(
                                    (
                                        nest_app_model(
                                            TermModel::App(Box::new(f), Box::new(a)),
                                            args,
                                        ),
                                        p5,
                                    ),
                                ),
                                None => None,
                            }
                        } else {
                            None
                        },
                        None => None,
                    }
                } else {
                    None
                },
                None => None,
            }
        } else {
            None
        },
        None => None,
    }
}

/// As many further terms as follow, in order.
pub open spec fn spec_term_list(s: Seq<char>, pos: int) -> (Seq<TermModel>, int)
    decreases s.len() - pos, 4int,
{
    match spec_term(s, pos) {
        None => (Seq::empty(), pos),
        Some((t, p2)) => if pos < p2 && p2 <= s.len() {
            let (rest, p3) = spec_term_list(s, p2);
            (Seq::empty().push(t) + rest, p3)
        } else {
            (Seq::empty(), pos)
        },
    }
}

/// As many further identifiers as follow, in order.
pub open spec fn spec_ident_list(s: Seq<char>, pos: int) -> (Seq<Seq<char>>, int)
    decreases s.len() - pos,
{
    match spec_token_identifier(s, pos) {
        None => (Seq::empty(), pos),
        Some((id, p2)) => if pos < p2 && p2 <= s.len() {
            let (rest, p3) = spec_ident_list(s, p2);
            (Seq::empty().push(id) + rest, p3)
        } else {
            (Seq::empty(), pos)
        },
    }
}

/// An abstraction: one or more identifiers between bars, then the body;
/// the first identifier binds outermost.
pub open spec fn spec_term_abs(s: Seq<char>, pos: int) -> Option<(TermModel, int)>
    decreases s.len() - pos, 0int,
{
    match spec_token_char(s, pos, '|') {
        Some(p1) => if pos < p1 && p1 <= s.len() {
            match spec_token_identifier(s, p1) {
                Some((id1, p2)) => if p1 < p2 && p2 <= s.len() {
                    let (ids, p3) = spec_ident_list(s, p2);
                    if p2 <= p3 && p3 <= s.len() {
                        match spec_token_char(s, p3, '|') {
                            Some(p4) => if p3 < p4 && p4 <= s.len() {
                                match spec_term(s, p4) {
                                    Some((body, p5)) => Some(
                                        (
                                            TermModel::Abs(
                                                id1,
                                                Box::new(nest_abs_model(ids, body)),
                                            ),
                                            p5,
                                        ),
                                    ),
                                    None => None,
                                }
                            } else {
                                None
                            },
                            None => None,
                        }
                    } else {
                        None
                    }
                } else {
                    None
                },
                None => None,
            }
        } else {
            None
        },
        None => None,
    }
}

proof fn lemma_token_char_bounds(s: Seq<char>, pos: int, c: char)
    ensures
        spec_token_char(s, pos, c) matches Some(p) ==> pos < p <= s.len(),
{
    if 0 <= pos && pos < s.len() && s[pos] == c {
        lemma_spaces_end_bounds(s, pos + 1);
    }
}

proof fn lemma_token_integer_bounds(s: Seq<char>, pos: int)
    requires
        0 <= pos <= s.len(),
    ensures
        spec_token_integer(s, pos) matches Some(r) ==> pos < r.1 <= s.len(),
{
    lemma_digits_end_bounds(s, pos);
    lemma_spaces_end_bounds(s, digits_end(s, pos));
}

proof fn lemma_token_identifier_bounds(s: Seq<char>, pos: int)
    requires
        0 <= pos <= s.len(),
    ensures
        spec_token_identifier(s, pos) matches Some(r) ==> pos < r.1 <= s.len(),
{
    lemma_ident_end_bounds(s, pos);
    lemma_spaces_end_bounds(s, ident_end(s, pos));
}

/// A successful parse always advances, and never runs past the end:
/// the guards inside the grammar's spec functions always hold.
proof fn lemma_term_bounds(s: Seq<char>, pos: int)
    ensures
        spec_term(s, pos) matches Some(r) ==> pos < r.1 <= s.len(),
        spec_term_app(s, pos) matches Some(r) ==> pos < r.1 <= s.len(),
        spec_term_abs(s, pos) matches Some(r) ==> pos < r.1 <= s.len(),
        0 <= pos <= s.len() ==> pos <= spec_term_list(s, pos).1 <= s.len(),
    decreases s.len() - pos,
{
    lemma_token_char_bounds(s, pos, '{');
    lemma_token_char_bounds(s, pos, '|');
    // the application alternative
    match spec_token_char(s, pos, '{') {
        Some(p1) => {
            lemma_term_bounds(s, p1);
            match spec_term(s, p1) {
                Some((f, p2)) => {
                    lemma_term_bounds(s, p2);
                    match spec_term(s, p2) {
                        Some((a, p3)) => {
                            if p2 < p3 && p3 <= s.len() {
                                lemma_term_bounds(s, p3);
                                lemma_token_char_bounds(s, spec_term_list(s, p3).1, '}');
                            }
                        },
                        None => {},
                    }
                },
                None => {},
            }
        },
        None => {},
    }
    // the abstraction alternative
    match spec_token_char(s, pos, '|') {
        Some(p1) => {
            lemma_token_identifier_bounds(s, p1);
            match spec_token_identifier(s, p1) {
                Some((id1, p2)) => {
                    lemma_ident_list_bounds(s, p2);
                    let p3 = spec_ident_list(s, p2).1;
                    lemma_token_char_bounds(s, p3, '|');
                    match spec_token_char(s, p3, '|') {
                        Some(p4) => {
                            if p3 < p4 && p4 <= s.len() {
                                lemma_term_bounds(s, p4);
                            }
                        },
                        None => {},
                    }
                },
                None => {},
            }
        },
        None => {},
    }
    // the term alternatives
    if 0 <= pos && pos < s.len() {
        if s[pos] == '(' {
            lemma_spaces_end_bounds(s, pos + 1);
            let p1 = spaces_end(s, pos + 1);
            lemma_term_bounds(s, p1);
            match spec_term(s, p1) {
                Some((t, p2)) => {
                    lemma_token_char_bounds(s, p2, ')');
                },
                None => {},
            }
        } else if is_digit(s[pos]) {
            lemma_token_integer_bounds(s, pos);
        } else if is_ident_char(s[pos]) {
            lemma_token_identifier_bounds(s, pos);
        }
    }
    // the term list
    if 0 <= pos && pos <= s.len() {
        match spec_term(s, pos) {
            Some((t, p2)) => {
                if pos < p2 && p2 <= s.len() {
                    lemma_term_bounds(s, p2);
                }
            },
            None => {},
        }
    }
}

proof fn lemma_ident_list_bounds(s: Seq<char>, pos: int)
    requires
        0 <= pos <= s.len(),
    ensures
        pos <= spec_ident_list(s, pos).1 <= s.len(),
    decreases s.len() - pos,
{
    lemma_token_identifier_bounds(s, pos);
    match spec_token_identifier(s, pos) {
        Some((id, p2)) => {
            lemma_ident_list_bounds(s, p2);
        },
        None => {},
    }
}

/// Nesting abstractions commutes with taking models.
proof fn lemma_model_nest_abs(pairs: Seq<(String, ())>, t: Untyped<Primitive>)
    ensures
        model_of(nest_abs(pairs, t)) == nest_abs_model(
            pairs.map_values(|p: (String, ())| p.0@),
            model_of(t),
        ),
    decreases pairs.len(),
{
    let ids = pairs.map_values(|p: (String, ())| p.0@);
    if pairs.len() > 0 {
        let inner = Term::<(), Primitive>::Abs(pairs.last().0, pairs.last().1, Box::new(t));
        lemma_model_nest_abs(pairs.drop_last(), inner);
        assert(pairs.drop_last().map_values(|p: (String, ())| p.0@) =~= ids.drop_last());
        assert(ids.last() == pairs.last().0@);
    }
}

/// Nesting applications commutes with taking models.
proof fn lemma_model_nest_app(f: Untyped<Primitive>, args: Seq<Untyped<Primitive>>)
    ensures
        model_of(nest_app(f, args)) == nest_app_model(
            model_of(f),
            args.map_values(|t: Untyped<Primitive>| model_of(t)),
        ),
    decreases args.len(),
{
    let models = args.map_values(|t: Untyped<Primitive>| model_of(t));
    if args.len() > 0 {
        lemma_model_nest_app(f, args.drop_last());
        assert(args.drop_last().map_values(|t: Untyped<Primitive>| model_of(t)) =~= models
            .drop_last());
        assert(models.last() == model_of(args.last()));
    }
}

/// An integer literal as a term.
fn term_val(s: &Vec<char>, pos: usize) -> (r: Option<(Untyped<Primitive>, usize)>)
    requires
        pos as int <= s@.len(),
    ensures
        match spec_token_integer(s@, pos as int) {
            Some((n, p)) => r matches Some(pr) && model_of(pr.0) == TermModel::Val(
                Primitive::Integer(n),
            ) && pr.1 as int == p && pos < pr.1 <= s@.len(),
            None => r is None,
        },
{
    match token_integer(s, pos) {
        Some((n, p)) => Some((Term::val_int(n), p)),
        None => None,
    }
}

/// An identifier as a variable reference.
fn term_var(s: &Vec<char>, pos: usize) -> (r: Option<(Untyped<Primitive>, usize)>)
    requires
        pos as int <= s@.len(),
    ensures
        match spec_token_identifier(s@, pos as int) {
            Some((id, p)) => r matches Some(pr) && model_of(pr.0) == TermModel::Var(id) && pr.1
                as int == p && pos < pr.1 <= s@.len(),
            None => r is None,
        },
{
    match token_identifier(s, pos) {
        Some((id, p)) => Some((Term::var(id), p)),
        None => None,
    }
}

/// An application in braces.
fn term_app(s: &Vec<char>, pos: usize) -> (r: Option<(Untyped<Primitive>, usize)>)
    requires
        pos as int <= s@.len(),
    ensures
        match spec_term_app(s@, pos as int) {
            Some((m, q)) => r matches Some(pr) && model_of(pr.0) == m && pr.1 as int == q && pos
                < pr.1 <= s@.len(),
            None => r is None,
        },
    decreases s@.len() - pos as int, 0int,
{
    match token_left_brace(s, pos) {
        None => None,
        Some(p1) => match term(s, p1) {
            None => None,
            Some((f, p2)) => match term(s, p2) {
                None => None,
                Some((a, p3)) => {
                    let ghost f_model = model_of(f);
                    let ghost a_model = model_of(a);
                    let mut args: Vec<Untyped<Primitive>> = Vec::new();
                    let mut cur = p3;
                    proof {
                        assert(args@.map_values(|t: Untyped<Primitive>| model_of(t)) =~= Seq::<
                            TermModel,
                        >::empty());
                    }
                    loop
                        invariant
                            pos < p3,
                            p3 <= cur <= s@.len(),
                            spec_term_list(s@, p3 as int).0 =~= args@.map_values(
                                |t: Untyped<Primitive>| model_of(t),
                            ) + spec_term_list(s@, cur as int).0,
                            spec_term_list(s@, p3 as int).1 == spec_term_list(s@, cur as int).1,
                        ensures
                            pos < p3 <= cur <= s@.len(),
                            spec_term_list(s@, p3 as int).0 =~= args@.map_values(
                                |t: Untyped<Primitive>| model_of(t),
                            ),
                            spec_term_list(s@, p3 as int).1 == cur as int,
                        decreases s@.len() - cur as int,
                    {
                        let ghost prev_args = args@;
                        let ghost prev_cur = cur as int;
                        match term(s, cur) {
                            None => {
                                proof {
                                    assert(prev_args.map_values(
                                        |t0: Untyped<Primitive>| model_of(t0),
                                    ) + spec_term_list(s@, prev_cur).0 =~= prev_args.map_values(
                                        |t0: Untyped<Primitive>| model_of(t0),
                                    ));
                                }
                                break ;
                            },
                            Some((t, p_next)) => {
                                proof {
                                    assert(spec_term_list(s@, prev_cur).0 =~= Seq::<
                                        TermModel,
                                    >::empty().push(model_of(t)) + spec_term_list(
                                        s@,
                                        p_next as int,
                                    ).0);
                                    assert(prev_args.push(t).map_values(
                                        |t0: Untyped<Primitive>| model_of(t0),
                                    ) =~= prev_args.map_values(
                                        |t0: Untyped<Primitive>| model_of(t0),
                                    ).push(model_of(t)));
                                    assert(prev_args.map_values(
                                        |t0: Untyped<Primitive>| model_of(t0),
                                    ).push(model_of(t)) + spec_term_list(s@, p_next as int).0
                                        =~= prev_args.map_values(
                                        |t0: Untyped<Primitive>| model_of(t0),
                                    ) + (Seq::<TermModel>::empty().push(model_of(t))
                                        + spec_term_list(s@, p_next as int).0));
                                }
                                args.push(t);
                                cur = p_next;
                            },
                        }
                    }
                    match token_right_brace(s, cur) {
                        None => None,
                        Some(p5) => {
                            proof {
                                lemma_model_nest_app(
                                    Term::App(Box::new(f), Box::new(a)),
                                    args@,
                                );
                            }
                            Some((Term::app_many(f, a, args), p5))
                        },
                    }
                },
            },
        },
    }
}

/// An abstraction between bars.
fn term_abs(s: &Vec<char>, pos: usize) -> (r: Option<(Untyped<Primitive>, usize)>)
    requires
        pos as int <= s@.len(),
    ensures
        match spec_term_abs(s@, pos as int) {
            Some((m, q)) => r matches Some(pr) && model_of(pr.0) == m && pr.1 as int == q && pos
                < pr.1 <= s@.len(),
            None => r is None,
        },
    decreases s@.len() - pos as int, 0int,
{
    match token_bar(s, pos) {
        None => None,
        Some(p1) => match token_identifier(s, p1) {
            None => None,
            Some((id1, p2)) => {
                let mut ids: Vec<String> = Vec::new();
                let mut cur = p2;
                proof {
                    assert(ids@.map_values(|i: String| i@) =~= Seq::<Seq<char>>::empty());
                }
                loop
                    invariant
                        pos < p2,
                        p2 <= cur <= s@.len(),
                        spec_ident_list(s@, p2 as int).0 =~= ids@.map_values(|i: String| i@)
                            + spec_ident_list(s@, cur as int).0,
                        spec_ident_list(s@, p2 as int).1 == spec_ident_list(s@, cur as int).1,
                    ensures
                        pos < p2 <= cur <= s@.len(),
                        spec_ident_list(s@, p2 as int).0 =~= ids@.map_values(|i: String| i@),
                        spec_ident_list(s@, p2 as int).1 == cur as int,
                    decreases s@.len() - cur as int,
                {
                    let ghost prev_ids = ids@;
                    let ghost prev_cur = cur as int;
                    match token_identifier(s, cur) {
                        None => {
                            proof {
                                assert(prev_ids.map_values(|i: String| i@) + spec_ident_list(
                                    s@,
                                    prev_cur,
                                ).0 =~= prev_ids.map_values(|i: String| i@));
                            }
                            break ;
                        },
                        Some((id, p_next)) => {
                            proof {
                                assert(spec_ident_list(s@, prev_cur).0 =~= Seq::<
                                    Seq<char>,
                                >::empty().push(id@) + spec_ident_list(s@, p_next as int).0);
                                assert(prev_ids.push(id).map_values(|i: String| i@)
                                    =~= prev_ids.map_values(|i: String| i@).push(id@));
                                assert(prev_ids.map_values(|i: String| i@).push(id@)
                                    + spec_ident_list(s@, p_next as int).0 =~= prev_ids.map_values(
                                    |i: String| i@,
                                ) + (Seq::<Seq<char>>::empty().push(id@) + spec_ident_list(
                                    s@,
                                    p_next as int,
                                ).0));
                            }
                            ids.push(id);
                            cur = p_next;
                        },
                    }
                }
                match token_bar(s, cur) {
                    None => None,
                    Some(p4) => match term(s, p4) {
                        None => None,
                        Some((body, p5)) => {
                            proof {
                                lemma_model_nest_abs(
                                    ids@.map_values(|id: String| (id, ())),
                                    body,
                                );
                                assert(ids@.map_values(|id: String| (id, ())).map_values(
                                    |p: (String, ())| p.0@,
                                ) =~= ids@.map_values(|i: String| i@));
                            }
                            Some((Untyped::abs_many_untyped(id1, ids, body), p5))
                        },
                    },
                }
            },
        },
    }
}

/// Any term, dispatching on its first character.
pub fn term(s: &Vec<char>, pos: usize) -> (r: Option<(Untyped<Primitive>, usize)>)
    requires
        pos as int <= s@.len(),
    ensures
        match spec_term(s@, pos as int) {
            Some((m, q)) => r matches Some(pr) && model_of(pr.0) == m && pr.1 as int == q && pos
                < pr.1 <= s@.len(),
            None => r is None,
        },
    decreases s@.len() - pos as int, 3int,
{
    if pos >= s.len() {
        return None;
    }
    let c = s[pos];
    if c == '(' {
        let p1 = skip_spaces(s, pos + 1);
        match term(s, p1) {
            None => None,
            Some((t, p2)) => match token_right_paren(s, p2) {
                None => None,
                Some(p3) => Some((t, p3)),
            },
        }
    } else if digit_char(c) {
        term_val(s, pos)
    } else if ident_char(c) {
        term_var(s, pos)
    } else if c == '{' {
        term_app(s, pos)
    } else if c == '|' {
        term_abs(s, pos)
    } else {
        None
    }
}

/// Why a source string was rejected.
#[derive(Debug, PartialEq, Eq)]
pub enum ParseError {
    Syntax,
}

fn chars_of(s: &str) -> (v: Vec<char>)
    ensures
        v@ == s@,
{
    let n = s.unicode_len();
    let mut v: Vec<char> = Vec::new();
    let mut i: usize = 0;
    while i < n
        invariant
            i <= n,
            n as nat == s@.len(),
            v@ =~= s@.subrange(0, i as int),
        decreases n - i,
    {
        v.push(s.get_char(i));
        proof {
            assert(v@ =~= s@.subrange(0, i as int + 1));
        }
        i = i + 1;
    }
    proof {
        assert(s@.subrange(0, n as int) =~= s@);
    }
    v
}

/// An integer literal as a primitive value.
pub fn primitive(s: &Vec<char>, pos: usize) -> (r: Option<(Primitive, usize)>)
    requires
        pos as int <= s@.len(),
    ensures
        match spec_token_integer(s@, pos as int) {
            Some((n, p)) => r matches Some(pr) && pr.0 == Primitive::Integer(n) && pr.1 as int == p,
            None => r is None,
        },
{
    match token_integer(s, pos) {
        Some((n, p)) => Some((Primitive::Integer(n), p)),
        None => None,
    }
}

/// Parse a whole source string into a term, returning the term and the
/// index of the first character the parse did not consume.
pub fn parse_string(s: &String) -> (r: Result<(Untyped<Primitive>, usize), ParseError>)
    ensures
        match spec_term(s@, 0) {
            Some((m, q)) => r matches Ok(pr) && model_of(pr.0) == m && pr.1 as int == q,
            None => r == Err::<(Untyped<Primitive>, usize), ParseError>(ParseError::Syntax),
        },
{
    let chars = chars_of(s.as_str());
    match term(&chars, 0) {
        Some((t, p)) => Ok((t, p)),
        None => Err(ParseError::Syntax),
    }
}

} // verus!
