//! Identifier conventions of the foreign library.
//!
//! A schema kind name such as `RBS::AST::TypeParam` is known to the foreign
//! library under three spellings: a type name (`rbs_ast_type_param_t`), an
//! enum-tag name (`RBS_AST_TYPE_PARAM`) and a dispatch-method name
//! (`rbs_ast_type_param`). This module computes them and states how they
//! relate.

use vstd::prelude::*;
use vstd::string::*;

verus! {

/// Which spelling of a kind name is wanted.
#[derive(Clone, Copy, Debug, PartialEq, Eq)]
pub enum CIdentifier {
    /// `foo_bar_t`
    Type,
    /// `FOO_BAR`
    Constant,
    /// `foo_bar`
    Method,
}

pub open spec fn is_upper(c: char) -> bool {
    'A' <= c <= 'Z'
}

pub open spec fn is_lower(c: char) -> bool {
    'a' <= c <= 'z'
}

pub open spec fn is_digit(c: char) -> bool {
    '0' <= c <= '9'
}

/// ASCII lower-casing: only `A`..`Z` change.
pub open spec fn to_lower(c: char) -> char {
    if is_upper(c) {
        ((c as u8 + 32) as u8) as char
    } else {
        c
    }
}

/// ASCII upper-casing: only `a`..`z` change.
pub open spec fn to_upper(c: char) -> char {
    if is_lower(c) {
        ((c as u8 - 32) as u8) as char
    } else {
        c
    }
}

/// The name with every namespace separator `::` turned into one underscore,
/// reading left to right.
pub open spec fn join_namespaces(name: Seq<char>) -> Seq<char>
    decreases name.len(),
{
    if name.len() == 0 {
        Seq::empty()
    } else if name.len() >= 2 && name[0] == ':' && name[1] == ':' {
        seq!['_'] + join_namespaces(name.skip(2))
    } else {
        seq![name[0]] + join_namespaces(name.skip(1))
    }
}

/// A case boundary lies before position `i`: an upper-case letter that
/// follows a lower-case letter or a digit.
pub open spec fn case_boundary(s: Seq<char>, i: int) -> bool {
    &&& 0 < i < s.len()
    &&& is_upper(s[i])
    &&& (is_lower(s[i - 1]) || is_digit(s[i - 1]))
}

pub open spec fn lowercases(identifier: CIdentifier) -> bool {
    identifier is Type || identifier is Method
}

/// The case that a convention gives one character.
pub open spec fn case_char(c: char, identifier: CIdentifier) -> char {
    if lowercases(identifier) {
        to_lower(c)
    } else {
        to_upper(c)
    }
}

/// What position `i` of `s` contributes: an underscore where a case boundary
/// lies before it, then the character in the convention's case.
pub open spec fn piece(s: Seq<char>, identifier: CIdentifier, i: int) -> Seq<char> {
    if case_boundary(s, i) {
        seq!['_', case_char(s[i], identifier)]
    } else {
        seq![case_char(s[i], identifier)]
    }
}

/// The pieces of the first `n` positions of `s`, in order.
pub open spec fn cased(s: Seq<char>, identifier: CIdentifier, n: nat) -> Seq<char>
    decreases n,
{
    if n == 0 {
        Seq::empty()
    } else {
        cased(s, identifier, (n - 1) as nat) + piece(s, identifier, n - 1)
    }
}

pub open spec fn type_suffix() -> Seq<char> {
    seq!['_', 't']
}

/// The identifier that `identifier` gives to the kind name `name`.
pub open spec fn converted(name: Seq<char>, identifier: CIdentifier) -> Seq<char> {
    let joined = join_namespaces(name);
    let body = cased(joined, identifier, joined.len());
    if identifier is Type {
        body + type_suffix()
    } else {
        body
    }
}

pub open spec fn lowered(s: Seq<char>) -> Seq<char> {
    s.map_values(|c: char| to_lower(c))
}

pub open spec fn uppered(s: Seq<char>) -> Seq<char> {
    s.map_values(|c: char| to_upper(c))
}

/// `String::push` appends the character to the end of the string and
/// changes nothing else of it.
pub assume_specification[ String::push ](s: &mut String, ch: char)
    ensures
        final(s)@ == old(s)@.push(ch),
;

fn ascii_upper(c: char) -> (r: bool)
    ensures
        r == is_upper(c),
{
    'A' <= c && c <= 'Z'
}

fn ascii_lower_or_digit(c: char) -> (r: bool)
    ensures
        r == (is_lower(c) || is_digit(c)),
{
    ('a' <= c && c <= 'z') || ('0' <= c && c <= '9')
}

fn ascii_to_lower(c: char) -> (r: char)
    ensures
        r == to_lower(c),
{
    if 'A' <= c && c <= 'Z' {
        ((c as u8) + 32) as char
    } else {
        c
    }
}

fn ascii_to_upper(c: char) -> (r: char)
    ensures
        r == to_upper(c),
{
    if 'a' <= c && c <= 'z' {
        ((c as u8) - 32) as char
    } else {
        c
    }
}

fn joined_chars(name: &str) -> (joined: Vec<char>)
    ensures
        joined@ == join_namespaces(name@),
{
    let n = name.unicode_len();
    let mut joined: Vec<char> = Vec::new();
    let mut i: usize = 0;
    assert(name@.skip(0) == name@);
    while i < n
        invariant
            n == name@.len(),
            i <= n,
            joined@ + join_namespaces(name@.skip(i as int)) == join_namespaces(name@),
        decreases n - i,
    {
        let ghost rest = name@.skip(i as int);
        let c = name.get_char(i);
        if c == ':' && i + 1 < n && name.get_char(i + 1) == ':' {
            assert(rest.skip(2) == name@.skip(i + 2));
            assert(joined@.push('_') + join_namespaces(rest.skip(2)) == joined@ + (seq!['_']
                + join_namespaces(rest.skip(2))));
            joined.push('_');
            i = i + 2;
        } else {
            assert(rest.skip(1) == name@.skip(i + 1));
            assert(joined@.push(c) + join_namespaces(rest.skip(1)) == joined@ + (seq![c]
                + join_namespaces(rest.skip(1))));
            joined.push(c);
            i = i + 1;
        }
    }
    assert(joined@ + Seq::<char>::empty() == joined@);
    joined
}

/// Converts a schema kind name into one of the foreign library's identifier
/// conventions.
///
/// Namespace separators become underscores, an underscore is put before an
/// upper-case letter that follows a lower-case letter or a digit, the letters
/// take the convention's case, and the type convention ends in `_t`.
pub fn convert_name(name: &str, identifier: CIdentifier) -> (out: String)
    requires
        name@.len() > 0,
    ensures
        out@ == converted(name@, identifier),
{
    let joined = joined_chars(name);
    let lowercase = match identifier {
        CIdentifier::Type => true,
        CIdentifier::Method => true,
        CIdentifier::Constant => false,
    };
    let mut out = String::new();
    let mut prev_is_lower = false;
    let mut j: usize = 0;
    while j < joined.len()
        invariant
            j <= joined@.len(),
            lowercase == lowercases(identifier),
            out@ == cased(joined@, identifier, j as nat),
            prev_is_lower == (j > 0 && (is_lower(joined@[j - 1]) || is_digit(joined@[j - 1]))),
        decreases joined@.len() - j,
    {
        let ch = joined[j];
        let shown = if lowercase {
            ascii_to_lower(ch)
        } else {
            ascii_to_upper(ch)
        };
        let boundary = prev_is_lower && ascii_upper(ch);
        assert(boundary == case_boundary(joined@, j as int));
        if boundary {
            out.push('_');
        }
        out.push(shown);
        assert(out@ == cased(joined@, identifier, j as nat) + piece(joined@, identifier, j as int));
        prev_is_lower = ascii_lower_or_digit(ch);
        j = j + 1;
    }
    match identifier {
        CIdentifier::Type => {
            out.push('_');
            out.push('t');
            assert(out@ == cased(joined@, identifier, joined@.len()) + type_suffix());
        },
        _ => {},
    }
    out
}

proof fn lemma_case_char_agrees(c: char)
    ensures
        to_lower(case_char(c, CIdentifier::Constant)) == case_char(c, CIdentifier::Method),
        to_upper(case_char(c, CIdentifier::Method)) == case_char(c, CIdentifier::Constant),
        case_char(c, CIdentifier::Type) == case_char(c, CIdentifier::Method),
{
}

proof fn lemma_cased_agrees(s: Seq<char>, n: nat)
    requires
        n <= s.len(),
    ensures
        lowered(cased(s, CIdentifier::Constant, n)) == cased(s, CIdentifier::Method, n),
        uppered(cased(s, CIdentifier::Method, n)) == cased(s, CIdentifier::Constant, n),
        cased(s, CIdentifier::Type, n) == cased(s, CIdentifier::Method, n),
    decreases n,
{
    if n > 0 {
        let m = (n - 1) as nat;
        lemma_cased_agrees(s, m);
        lemma_case_char_agrees(s[n - 1]);
        let constant = cased(s, CIdentifier::Constant, m);
        let method = cased(s, CIdentifier::Method, m);
        let constant_piece = piece(s, CIdentifier::Constant, n - 1);
        let method_piece = piece(s, CIdentifier::Method, n - 1);
        assert(lowered(constant_piece) == method_piece);
        assert(uppered(method_piece) == constant_piece);
        assert(lowered(constant + constant_piece) == lowered(constant) + lowered(constant_piece));
        assert(uppered(method + method_piece) == uppered(method) + uppered(method_piece));
    } else {
        assert(lowered(Seq::<char>::empty()) == Seq::<char>::empty());
        assert(uppered(Seq::<char>::empty()) == Seq::<char>::empty());
    }
}

/// The three conventions spell one token sequence.
///
/// For every kind name: lower-casing the tag name gives the method name,
/// upper-casing the method name gives the tag name, and the type name is the
/// method name followed by `_t`. So each convention is recovered from any
/// other by a change of case and of the suffix alone.
pub proof fn lemma_conventions_agree(name: Seq<char>)
    ensures
        lowered(converted(name, CIdentifier::Constant)) == converted(name, CIdentifier::Method),
        uppered(converted(name, CIdentifier::Method)) == converted(name, CIdentifier::Constant),
        converted(name, CIdentifier::Type) == converted(name, CIdentifier::Method) + type_suffix(),
        converted(name, CIdentifier::Type).drop_last().drop_last() == converted(
            name,
            CIdentifier::Method,
        ),
{
    let joined = join_namespaces(name);
    lemma_cased_agrees(joined, joined.len());
    let method = converted(name, CIdentifier::Method);
    assert((method + type_suffix()).drop_last().drop_last() == method);
}

} // verus!
