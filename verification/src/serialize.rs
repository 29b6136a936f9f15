//! The value serializer: classifies the raw text of a configuration entry
//! into one of a closed set of value kinds and emits an equivalent Nix
//! expression, recursing through optional wrappers and delegating
//! string-literal escaping to the escaper.
//!
//! Classification is total: the rules are tried in a fixed order, the first
//! match wins, and anything that matches none of them is emitted as a raw
//! token. The order is part of the contract: the optional wrapper is checked
//! before the primitive tokens (boolean, float, integer), those before the
//! character token, then the bare `None` token, then the quoted string.

use vstd::prelude::*;

use crate::escape::code_points;
use crate::escape::escape_char;
use crate::escape::escape_seq;
use crate::escape::escape_string;
use crate::escape::lemma_escape_verbatim;
use crate::escape::lemma_unescape_escape;
use crate::escape::push_escaped_char;
use crate::escape::unescape_code_points;
use crate::escape::verbatim_char;
use crate::strutil::str_eq;

verus! {

/// The closed set of semantic categories a raw value can fall into,
/// in classification order.
#[derive(Clone, Copy, Debug, PartialEq, Eq, Structural)]
pub enum ValueKind {
    /// An optional wrapper around a present inner value.
    SomeOptional,
    /// Exactly `true` or `false`.
    Boolean,
    /// An optional sign, digits, a decimal point, digits.
    Float,
    /// An optional sign and digits.
    Integer,
    /// A single character between single quotes.
    Character,
    /// The bare none-token.
    NoneOptional,
    /// Text between double quotes.
    StringLiteral,
    /// Anything else.
    Raw,
}

pub open spec fn is_digit_char(c: char) -> bool {
    '0' <= c && c <= '9'
}

pub open spec fn all_digit_chars(s: Seq<char>) -> bool {
    forall|i: int| 0 <= i < s.len() ==> is_digit_char(#[trigger] s[i])
}

/// An optional leading minus sign, then one or more digits, nothing else.
pub open spec fn is_integer_token(s: Seq<char>) -> bool {
    if s.len() > 0 && s[0] == '-' {
        s.len() >= 2 && all_digit_chars(s.skip(1))
    } else {
        s.len() > 0 && all_digit_chars(s)
    }
}

/// An integer token, a decimal point, then one or more digits, nothing else.
pub open spec fn is_float_token(s: Seq<char>) -> bool {
    exists|i: int|
        0 <= i < s.len() && s[i] == '.' && is_integer_token(#[trigger] s.take(i)) && s.skip(
            i + 1,
        ).len() > 0 && all_digit_chars(s.skip(i + 1))
}

pub open spec fn is_bool_token(s: Seq<char>) -> bool {
    s == "true"@ || s == "false"@
}

/// Exactly one character enclosed in single quotes.
pub open spec fn is_char_token(s: Seq<char>) -> bool {
    s.len() == 3 && s[0] == '\'' && s[2] == '\''
}

pub open spec fn is_none_token(s: Seq<char>) -> bool {
    s == "None"@
}

/// Syntax that wraps a present inner value: `Some(`, anything, `)`.
pub open spec fn is_some_token(s: Seq<char>) -> bool {
    s.len() >= 6 && s.take(5) == "Some("@ && s.last() == ')'
}

/// Text that begins and ends with a double quote.
pub open spec fn is_string_token(s: Seq<char>) -> bool {
    s.len() >= 2 && s[0] == '"' && s.last() == '"'
}

/// The text between the optional wrapper's delimiters.
pub open spec fn some_inner(s: Seq<char>) -> Seq<char> {
    s.subrange(5, s.len() - 1)
}

/// The text between the double quotes of a quoted string.
pub open spec fn string_interior(s: Seq<char>) -> Seq<char> {
    s.subrange(1, s.len() - 1)
}

/// The kind assigned to a raw value: the first matching rule wins.
pub open spec fn kind_of(s: Seq<char>) -> ValueKind {
    if is_some_token(s) {
        ValueKind::SomeOptional
    } else if is_bool_token(s) {
        ValueKind::Boolean
    } else if is_float_token(s) {
        ValueKind::Float
    } else if is_integer_token(s) {
        ValueKind::Integer
    } else if is_char_token(s) {
        ValueKind::Character
    } else if is_none_token(s) {
        ValueKind::NoneOptional
    } else if is_string_token(s) {
        ValueKind::StringLiteral
    } else {
        ValueKind::Raw
    }
}

/// A whitespace character, as trimming understands it.
pub open spec fn is_space_char(c: char) -> bool {
    ||| c == ' '
    ||| c == '\t'
    ||| c == '\n'
    ||| c == '\u{b}'
    ||| c == '\u{c}'
    ||| c == '\r'
    ||| c == '\u{85}'
    ||| c == '\u{a0}'
    ||| c == '\u{1680}'
    ||| ('\u{2000}' <= c && c <= '\u{200a}')
    ||| c == '\u{2028}'
    ||| c == '\u{2029}'
    ||| c == '\u{202f}'
    ||| c == '\u{205f}'
    ||| c == '\u{3000}'
}

pub open spec fn trim_start_spec(s: Seq<char>) -> Seq<char>
    decreases s.len(),
{
    if s.len() > 0 && is_space_char(s[0]) {
        trim_start_spec(s.drop_first())
    } else {
        s
    }
}

pub open spec fn trim_end_spec(s: Seq<char>) -> Seq<char>
    decreases s.len(),
{
    if s.len() > 0 && is_space_char(s.last()) {
        trim_end_spec(s.drop_last())
    } else {
        s
    }
}

/// The text with surrounding whitespace removed.
pub open spec fn trim_spec(s: Seq<char>) -> Seq<char> {
    trim_end_spec(trim_start_spec(s))
}

proof fn lemma_trim_start_len(s: Seq<char>)
    ensures
        trim_start_spec(s).len() <= s.len(),
    decreases s.len(),
{
    if s.len() > 0 && is_space_char(s[0]) {
        lemma_trim_start_len(s.drop_first());
    }
}

proof fn lemma_trim_end_len(s: Seq<char>)
    ensures
        trim_end_spec(s).len() <= s.len(),
    decreases s.len(),
{
    if s.len() > 0 && is_space_char(s.last()) {
        lemma_trim_end_len(s.drop_last());
    }
}

proof fn lemma_trim_len(s: Seq<char>)
    ensures
        trim_spec(s).len() <= s.len(),
{
    lemma_trim_start_len(s);
    lemma_trim_end_len(trim_start_spec(s));
}

/// Wraps a nested expression in parentheses; top-level expressions stand bare.
pub open spec fn paren_if(nested: bool, e: Seq<char>) -> Seq<char> {
    if nested {
        "("@ + e + ")"@
    } else {
        e
    }
}

/// The Nix expression emitted for a raw value.
///
/// The rules, tried in order: an optional wrapper becomes `mkOptional(...)`
/// around the serialization of its trimmed inner text, or `mkOptional(null)`
/// when no inner text is left after trimming; boolean, float and integer
/// tokens are emitted verbatim; a character token becomes `mkChar("...")`
/// with the character escaped; the none-token becomes `mkOptional(null)`;
/// a quoted string is re-emitted between double quotes with its interior
/// escaped, except that a nested call passes the interior through untouched;
/// everything else is escaped whole inside `mkRaw("...")`. Every emitted
/// expression other than the verbatim tokens and the plain string is
/// parenthesized when it stands nested inside an optional wrapper.
pub open spec fn serialize_expr(s: Seq<char>, nested: bool) -> Seq<char>
    decreases s.len(),
    via serialize_expr_decreases
{
    if is_some_token(s) {
        let t = trim_spec(some_inner(s));
        if t.len() == 0 {
            paren_if(nested, "mkOptional(null)"@)
        } else {
            paren_if(nested, "mkOptional("@ + serialize_expr(t, true) + ")"@)
        }
    } else if is_bool_token(s) || is_float_token(s) || is_integer_token(s) {
        s
    } else if is_char_token(s) {
        paren_if(nested, "mkChar(\""@ + escape_char(s[1]) + "\")"@)
    } else if is_none_token(s) {
        paren_if(nested, "mkOptional(null)"@)
    } else if is_string_token(s) {
        "\""@ + (if nested {
            string_interior(s)
        } else {
            escape_seq(string_interior(s))
        }) + "\""@
    } else {
        paren_if(nested, "mkRaw(\""@ + escape_seq(s) + "\")"@)
    }
}

#[via_fn]
proof fn serialize_expr_decreases(s: Seq<char>, nested: bool) {
    if is_some_token(s) {
        lemma_trim_len(some_inner(s));
    }
}

/// A full serializer call: with an entry name the result is a binding line,
/// without one it is the bare expression.
pub open spec fn serialize_line(
    entry: Option<Seq<char>>,
    s: Seq<char>,
    indent: Seq<char>,
    nested: bool,
) -> Seq<char> {
    match entry {
        Some(e) => indent + e + " = "@ + serialize_expr(s, nested) + ";\n"@,
        None => serialize_expr(s, nested),
    }
}

pub open spec fn opt_str_view(o: Option<&str>) -> Option<Seq<char>> {
    match o {
        Some(e) => Some(e@),
        None => None,
    }
}

fn all_digits_range(s: &str, from: usize, to: usize) -> (r: bool)
    requires
        from <= to <= s@.len(),
    ensures
        r == all_digit_chars(s@.subrange(from as int, to as int)),
{
    let mut i = from;
    while i < to
        invariant
            from <= i <= to <= s@.len(),
            forall|j: int| from <= j < i ==> is_digit_char(#[trigger] s@[j]),
        decreases to - i,
    {
        let c = s.get_char(i);
        if !('0' <= c && c <= '9') {
            assert(s@.subrange(from as int, to as int)[i - from] == s@[i as int]);
            return false;
        }
        i = i + 1;
    }
    assert forall|j: int| 0 <= j < to - from implies is_digit_char(
        #[trigger] s@.subrange(from as int, to as int)[j],
    ) by {
        assert(s@.subrange(from as int, to as int)[j] == s@[from + j]);
    }
    true
}

/// Whether the whole string is an integer token.
fn is_integer_str(s: &str) -> (r: bool)
    ensures
        r == is_integer_token(s@),
{
    let n = s.unicode_len();
    if n == 0 {
        return false;
    }
    let c0 = s.get_char(0);
    if c0 == '-' {
        if n < 2 {
            return false;
        }
        let r = all_digits_range(s, 1, n);
        proof {
            assert(s@.subrange(1, n as int) =~= s@.skip(1));
        }
        r
    } else {
        let r = all_digits_range(s, 0, n);
        proof {
            assert(s@.subrange(0, n as int) =~= s@);
        }
        r
    }
}

/// Whether the prefix of length `p` is an integer token.
fn prefix_is_integer(s: &str, p: usize) -> (r: bool)
    requires
        p <= s@.len(),
    ensures
        r == is_integer_token(s@.take(p as int)),
{
    if p == 0 {
        return false;
    }
    let c0 = s.get_char(0);
    proof {
        assert(s@.take(p as int)[0] == s@[0]);
    }
    if c0 == '-' {
        if p < 2 {
            return false;
        }
        let r = all_digits_range(s, 1, p);
        proof {
            assert(s@.subrange(1, p as int) =~= s@.take(p as int).skip(1));
        }
        r
    } else {
        let r = all_digits_range(s, 0, p);
        proof {
            assert(s@.subrange(0, p as int) =~= s@.take(p as int));
        }
        r
    }
}

/// Whether the whole string is a float token.
fn is_float_str(s: &str) -> (r: bool)
    ensures
        r == is_float_token(s@),
{
    let n = s.unicode_len();
    let mut p: usize = 0;
    while p < n && s.get_char(p) != '.'
        invariant
            p <= n,
            n == s@.len(),
            forall|j: int| 0 <= j < p ==> s@[j] != '.',
        decreases n - p,
    {
        p = p + 1;
    }
    if p == n {
        proof {
            assert(!is_float_token(s@)) by {
                if is_float_token(s@) {
                    let i = choose|i: int|
                        0 <= i < s@.len() && s@[i] == '.' && is_integer_token(
                            #[trigger] s@.take(i),
                        ) && s@.skip(i + 1).len() > 0 && all_digit_chars(s@.skip(i + 1));
                    assert(s@[i] != '.');
                }
            }
        }
        return false;
    }
    let int_ok = prefix_is_integer(s, p);
    let tail_ok = p + 1 < n && all_digits_range(s, p + 1, n);
    proof {
        if p + 1 < n {
            assert(s@.subrange(p + 1, n as int) =~= s@.skip(p + 1));
        }
    }
    if int_ok && tail_ok {
        proof {
            assert(is_float_token(s@)) by {
                assert(0 <= p < s@.len() && s@[p as int] == '.' && is_integer_token(
                    s@.take(p as int),
                ) && s@.skip(p + 1).len() > 0 && all_digit_chars(s@.skip(p + 1)));
            }
        }
        true
    } else {
        proof {
            assert(!is_float_token(s@)) by {
                if is_float_token(s@) {
                    let i = choose|i: int|
                        0 <= i < s@.len() && s@[i] == '.' && is_integer_token(
                            #[trigger] s@.take(i),
                        ) && s@.skip(i + 1).len() > 0 && all_digit_chars(s@.skip(i + 1));
                    if i < p {
                        assert(s@[i] != '.');
                    } else if i > p {
                        let t = s@.take(i);
                        assert(t[p as int] == '.');
                        if t.len() > 0 && t[0] == '-' {
                            assert(p >= 1);
                            assert(t.skip(1)[p - 1] == '.');
                            assert(!is_digit_char(t.skip(1)[p - 1]));
                        } else {
                            assert(!is_digit_char(t[p as int]));
                        }
                        assert(!is_integer_token(t));
                    } else {
                        assert(i == p);
                        assert(s@.skip(p + 1).len() > 0 ==> p + 1 < n);
                    }
                }
            }
        }
        false
    }
}

/// Classifies a raw value. Total: every input gets exactly one kind.
pub fn classify(input: &str) -> (k: ValueKind)
    ensures
        k == kind_of(input@),
{
    let n = input.unicode_len();
    if n >= 6 && input.get_char(0) == 'S' && input.get_char(1) == 'o' && input.get_char(2) == 'm'
        && input.get_char(3) == 'e' && input.get_char(4) == '(' && input.get_char(n - 1) == ')' {
        proof {
            reveal_strlit("Some(");
            assert(input@.take(5) =~= "Some("@);
        }
        return ValueKind::SomeOptional;
    }
    proof {
        reveal_strlit("Some(");
        if is_some_token(input@) {
            assert(input@.take(5)[0] == input@[0]);
            assert(input@.take(5)[1] == input@[1]);
            assert(input@.take(5)[2] == input@[2]);
            assert(input@.take(5)[3] == input@[3]);
            assert(input@.take(5)[4] == input@[4]);
        }
    }
    if str_eq(input, "true") || str_eq(input, "false") {
        return ValueKind::Boolean;
    }
    if is_float_str(input) {
        return ValueKind::Float;
    }
    if is_integer_str(input) {
        return ValueKind::Integer;
    }
    if n == 3 && input.get_char(0) == '\'' && input.get_char(2) == '\'' {
        return ValueKind::Character;
    }
    if str_eq(input, "None") {
        return ValueKind::NoneOptional;
    }
    if n >= 2 && input.get_char(0) == '"' && input.get_char(n - 1) == '"' {
        return ValueKind::StringLiteral;
    }
    ValueKind::Raw
}

fn is_space(c: char) -> (r: bool)
    ensures
        r == is_space_char(c),
{
    c == ' ' || c == '\t' || c == '\n' || c == '\u{b}' || c == '\u{c}' || c == '\r' || c == '\u{85}'
        || c == '\u{a0}' || c == '\u{1680}' || ('\u{2000}' <= c && c <= '\u{200a}') || c
        == '\u{2028}' || c == '\u{2029}' || c == '\u{202f}' || c == '\u{205f}' || c == '\u{3000}'
}

proof fn lemma_trim_start_skip(s: Seq<char>, k: int)
    requires
        0 <= k <= s.len(),
        forall|i: int| 0 <= i < k ==> is_space_char(#[trigger] s[i]),
    ensures
        trim_start_spec(s) == trim_start_spec(s.skip(k)),
    decreases k,
{
    if k == 0 {
        assert(s.skip(0) =~= s);
    } else {
        assert(is_space_char(s[0]));
        assert(s.drop_first() =~= s.skip(1));
        lemma_trim_start_skip(s.skip(1), k - 1);
        assert(s.skip(1).skip(k - 1) =~= s.skip(k));
    }
}

proof fn lemma_trim_end_take(s: Seq<char>, k: int)
    requires
        0 <= k <= s.len(),
        forall|i: int| k <= i < s.len() ==> is_space_char(#[trigger] s[i]),
    ensures
        trim_end_spec(s) == trim_end_spec(s.take(k)),
    decreases s.len() - k,
{
    if k == s.len() {
        assert(s.take(k) =~= s);
    } else {
        assert(is_space_char(s.last()));
        assert(s.drop_last() =~= s.take(s.len() - 1));
        lemma_trim_end_take(s.take(s.len() - 1), k);
        assert(s.take(s.len() - 1).take(k) =~= s.take(k));
    }
}

/// Removes leading and trailing whitespace.
pub fn trim_str<'a>(s: &'a str) -> (r: &'a str)
    ensures
        r@ == trim_spec(s@),
{
    let n = s.unicode_len();
    let mut lo: usize = 0;
    while lo < n && is_space(s.get_char(lo))
        invariant
            lo <= n,
            n == s@.len(),
            forall|i: int| 0 <= i < lo ==> is_space_char(#[trigger] s@[i]),
        decreases n - lo,
    {
        lo = lo + 1;
    }
    proof {
        lemma_trim_start_skip(s@, lo as int);
        assert(trim_start_spec(s@.skip(lo as int)) == s@.skip(lo as int));
    }
    let mut hi: usize = n;
    while hi > lo && is_space(s.get_char(hi - 1))
        invariant
            lo <= hi <= n,
            n == s@.len(),
            forall|i: int| hi <= i < n ==> is_space_char(#[trigger] s@[i]),
        decreases hi,
    {
        hi = hi - 1;
    }
    let u: Ghost<Seq<char>> = Ghost(s@.skip(lo as int));
    proof {
        assert forall|i: int| hi - lo <= i < u@.len() implies is_space_char(#[trigger] u@[i]) by {
            assert(u@[i] == s@[lo + i]);
        }
        lemma_trim_end_take(u@, hi - lo);
        let v = u@.take(hi - lo);
        if v.len() > 0 {
            assert(v.last() == s@[hi - 1]);
            assert(!is_space_char(v.last()));
        }
        assert(trim_end_spec(v) == v);
        assert(v =~= s@.subrange(lo as int, hi as int));
    }
    s.substring_char(lo, hi)
}

/// Serializes a raw value into a bare Nix expression.
pub fn serialize_value(input: &str, nested: bool) -> (r: String)
    ensures
        r@ == serialize_expr(input@, nested),
    decreases input@.len(),
{
    let k = classify(input);
    let mut out = String::new();
    match k {
        ValueKind::SomeOptional => {
            let n = input.unicode_len();
            let inner = input.substring_char(5, n - 1);
            proof {
                assert(inner@ == some_inner(input@));
            }
            let t = trim_str(inner);
            proof {
                lemma_trim_len(inner@);
            }
            if nested {
                out.append("(");
            }
            if t.unicode_len() == 0 {
                out.append("mkOptional(null)");
            } else {
                let rec = serialize_value(t, true);
                out.append("mkOptional(");
                out.append(rec.as_str());
                out.append(")");
            }
            if nested {
                out.append(")");
            }
        },
        ValueKind::Boolean => {
            out.append(input);
        },
        ValueKind::Float => {
            out.append(input);
        },
        ValueKind::Integer => {
            out.append(input);
        },
        ValueKind::Character => {
            let c = input.get_char(1);
            if nested {
                out.append("(");
            }
            out.append("mkChar(\"");
            push_escaped_char(&mut out, c);
            out.append("\")");
            if nested {
                out.append(")");
            }
            proof {
                assert(out@ =~= paren_if(nested, "mkChar(\""@ + escape_char(input@[1]) + "\")"@));
            }
        },
        ValueKind::NoneOptional => {
            if nested {
                out.append("(");
            }
            out.append("mkOptional(null)");
            if nested {
                out.append(")");
            }
        },
        ValueKind::StringLiteral => {
            let n = input.unicode_len();
            let interior = input.substring_char(1, n - 1);
            proof {
                assert(interior@ == string_interior(input@));
            }
            out.append("\"");
            if nested {
                out.append(interior);
            } else {
                let e = escape_string(interior);
                out.append(e.as_str());
            }
            out.append("\"");
        },
        ValueKind::Raw => {
            let e = escape_string(input);
            if nested {
                out.append("(");
            }
            out.append("mkRaw(\"");
            out.append(e.as_str());
            out.append("\")");
            if nested {
                out.append(")");
            }
        },
    }
    proof {
        assert(out@ =~= serialize_expr(input@, nested));
    }
    out
}

/// Serializes one configuration entry. With an entry name the result is a
/// binding line of the form `{indent}{name} = {expression};` followed by a
/// line break; without one it is the bare expression. A present
/// `enclosing_kind` marks the call as nested inside an optional wrapper:
/// the expression is then parenthesized unless it is a verbatim token or a
/// plain string, and a quoted string's interior passes through unescaped.
pub fn to_nix_expression(
    entry: Option<&str>,
    input: &str,
    indent: &str,
    enclosing_kind: Option<&str>,
) -> (r: String)
    ensures
        r@ == serialize_line(opt_str_view(entry), input@, indent@, enclosing_kind is Some),
{
    let nested = enclosing_kind.is_some();
    match entry {
        Some(e) => {
            let mut out = String::from_str(indent);
            out.append(e);
            out.append(" = ");
            let v = serialize_value(input, nested);
            out.append(v.as_str());
            out.append(";\n");
            proof {
                assert(out@ =~= serialize_line(
                    opt_str_view(entry),
                    input@,
                    indent@,
                    enclosing_kind is Some,
                ));
            }
            out
        },
        None => serialize_value(input, nested),
    }
}

/// Boolean tokens are emitted verbatim, and escaping them is a no-op:
/// serializing `true` or `false` gives back exactly the input token,
/// whether or not the call is nested.
pub proof fn lemma_boolean_serialization(s: Seq<char>, nested: bool)
    requires
        is_bool_token(s),
    ensures
        serialize_expr(s, nested) == s,
        escape_seq(s) == s,
{
    reveal_strlit("true");
    reveal_strlit("false");
    assert(s.len() < 6);
    assert(!is_some_token(s));
    assert forall|i: int| 0 <= i < s.len() implies verbatim_char(#[trigger] s[i]) by {
        if s == "true"@ {
            assert(s[i] == "true"@[i]);
        } else {
            assert(s[i] == "false"@[i]);
        }
    }
    lemma_escape_verbatim(s);
}

/// Integer tokens are emitted verbatim: serializing a string of the form
/// `-?[0-9]+` gives back exactly the input, whether or not the call is
/// nested.
pub proof fn lemma_integer_serialization(s: Seq<char>, nested: bool)
    requires
        is_integer_token(s),
    ensures
        serialize_expr(s, nested) == s,
{
    reveal_strlit("Some(");
    assert(s[0] == '-' || is_digit_char(s[0]));
    assert(!is_some_token(s)) by {
        if is_some_token(s) {
            assert(s.take(5)[0] == s[0]);
            assert("Some("@[0] == 'S');
        }
    }
    assert(!is_bool_token(s)) by {
        reveal_strlit("true");
        reveal_strlit("false");
        if s == "true"@ {
            assert(s[0] == 't');
        }
        if s == "false"@ {
            assert(s[0] == 'f');
        }
    }
}

/// Float tokens are emitted verbatim: serializing a string of the form
/// `-?[0-9]+\.[0-9]+` gives back exactly the input, whether or not the call
/// is nested.
pub proof fn lemma_float_serialization(s: Seq<char>, nested: bool)
    requires
        is_float_token(s),
    ensures
        serialize_expr(s, nested) == s,
{
    let i = choose|i: int|
        0 <= i < s.len() && s[i] == '.' && is_integer_token(#[trigger] s.take(i)) && s.skip(
            i + 1,
        ).len() > 0 && all_digit_chars(s.skip(i + 1));
    assert(s.take(i)[0] == s[0]);
    assert(s[0] == '-' || is_digit_char(s[0]));
    reveal_strlit("Some(");
    assert(!is_some_token(s)) by {
        if is_some_token(s) {
            assert(s.take(5)[0] == s[0]);
            assert("Some("@[0] == 'S');
        }
    }
    assert(!is_bool_token(s)) by {
        reveal_strlit("true");
        reveal_strlit("false");
        if s == "true"@ {
            assert(s[0] == 't');
        }
        if s == "false"@ {
            assert(s[0] == 'f');
        }
    }
}

/// An optional wrapper with inner text serializes to `mkOptional(...)`
/// around the serialization of the trimmed inner text, serialized as a
/// nested value.
pub proof fn lemma_optional_serialization(s: Seq<char>)
    requires
        is_some_token(s),
        trim_spec(some_inner(s)).len() > 0,
    ensures
        serialize_expr(s, false) == "mkOptional("@ + serialize_expr(trim_spec(some_inner(s)), true)
            + ")"@,
{
}

/// An optional wrapper whose inner text trims away entirely serializes to
/// `mkOptional(null)`.
pub proof fn lemma_optional_empty_serialization(s: Seq<char>)
    requires
        is_some_token(s),
        trim_spec(some_inner(s)).len() == 0,
    ensures
        serialize_expr(s, false) == "mkOptional(null)"@,
{
}

/// The bare none-token serializes to `mkOptional(null)`.
pub proof fn lemma_none_serialization()
    ensures
        serialize_expr("None"@, false) == "mkOptional(null)"@,
{
    reveal_strlit("None");
    let s = "None"@;
    assert(!is_some_token(s));
    assert(s[0] == 'N');
    assert(!is_bool_token(s)) by {
        reveal_strlit("true");
        reveal_strlit("false");
        if s == "true"@ {
            assert(s[0] == "true"@[0]);
        }
        if s == "false"@ {
            assert(s.len() == "false"@.len());
        }
    }
    assert(!is_float_token(s)) by {
        if is_float_token(s) {
            let i = choose|i: int|
                0 <= i < s.len() && s[i] == '.' && is_integer_token(#[trigger] s.take(i)) && s.skip(
                    i + 1,
                ).len() > 0 && all_digit_chars(s.skip(i + 1));
            assert(s[i] != '.');
        }
    }
    assert(!is_integer_token(s));
    assert(!is_char_token(s));
    assert(is_none_token(s));
}

/// Round trip for quoted strings: the interior of a quoted input, once
/// escaped, decodes back to exactly the code points of the original
/// interior text.
pub proof fn lemma_string_interior_round_trip(s: Seq<char>)
    requires
        is_string_token(s),
    ensures
        unescape_code_points(escape_seq(string_interior(s))) == code_points(string_interior(s)),
{
    lemma_unescape_escape(string_interior(s));
}

} // verus!
