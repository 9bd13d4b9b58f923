//! Naming conventions: default relation names, camel casing, lexicographic
//! comparison of names and coercion of arbitrary names into identifiers.

use vstd::prelude::*;
use vstd::string::*;

verus! {

/// A name, seen as the sequence of its characters.
pub type Name = Seq<char>;

/// Strict lexicographic order on names, character by character in code point
/// order; a proper prefix sorts before the names it starts.
pub open spec fn name_lt(a: Name, b: Name) -> bool
    decreases a.len(),
{
    if b.len() == 0 {
        false
    } else if a.len() == 0 {
        true
    } else if a[0] != b[0] {
        a[0] < b[0]
    } else {
        name_lt(a.drop_first(), b.drop_first())
    }
}

/// Non-strict companion of [`name_lt`].
pub open spec fn name_le(a: Name, b: Name) -> bool {
    a == b || name_lt(a, b)
}

/// The lowercase mapping that Unicode assigns to a character: one character
/// or more.
pub uninterp spec fn lowercase_of(c: char) -> Seq<char>;

/// A name with its first character replaced by that character's lowercase
/// mapping; the empty name stays empty.
pub open spec fn camel_cased(s: Name) -> Name {
    if s.len() == 0 {
        s
    } else {
        lowercase_of(s[0]) + s.subrange(1, s.len() as int)
    }
}

/// The name two models share for the single relation between them: both model
/// names joined by `To`, the lexicographically smaller one first.
pub open spec fn default_relation_name(from: Name, to: Name) -> Name {
    if name_lt(from, to) {
        from + "To"@ + to
    } else {
        to + "To"@ + from
    }
}

/// Whether the character is a letter of the Latin alphabet.
pub open spec fn is_letter(c: char) -> bool {
    ('a' <= c && c <= 'z') || ('A' <= c && c <= 'Z')
}

/// Whether an identifier may hold the character.
pub open spec fn is_identifier_char(c: char) -> bool {
    is_letter(c) || ('0' <= c && c <= '9') || c == '_'
}

/// Words that the model language keeps for itself.
pub open spec fn is_reserved(s: Name) -> bool {
    s == "model"@ || s == "enum"@ || s == "type"@ || s == "datasource"@ || s == "generator"@
}

/// An identifier of the model language: a letter followed by letters, digits
/// and underscores, and not a reserved word.
pub open spec fn is_valid_name(s: Name) -> bool {
    &&& s.len() > 0
    &&& is_letter(s[0])
    &&& forall|i: int| 0 <= i < s.len() ==> is_identifier_char(#[trigger] s[i])
    &&& !is_reserved(s)
}

/// What is left of a name once everything before its first letter is cut.
pub open spec fn strip_leading(s: Name) -> Name
    decreases s.len(),
{
    if s.len() == 0 || is_letter(s[0]) {
        s
    } else {
        strip_leading(s.drop_first())
    }
}

/// A name with every character that no identifier may hold turned into `_`.
pub open spec fn replace_invalid(s: Name) -> Name {
    s.map_values(
        |c: char|
            if is_identifier_char(c) {
                c
            } else {
                '_'
            },
    )
}

/// The identifier a name is coerced to: leading non-letters are cut, the
/// remaining invalid characters become `_`, and a reserved word gets a
/// trailing `_`. A name without any letter becomes empty.
pub open spec fn sanitized(s: Name) -> Name {
    let r = replace_invalid(strip_leading(s));
    if is_reserved(r) {
        r.push('_')
    } else {
        r
    }
}

/// Each of the names, sanitized.
pub open spec fn sanitized_all(names: Seq<Name>) -> Seq<Name> {
    names.map_values(|n: Name| sanitized(n))
}

/// Case conversions on names.
pub trait NameNormalizer {
    /// The name with a lowercase first character.
    fn camel_case(&self) -> (r: String)
        ensures
            r@ == camel_cased(self.name_chars()),
    ;

    /// The characters of the name.
    spec fn name_chars(&self) -> Name;
}

impl NameNormalizer for String {
    open spec fn name_chars(&self) -> Name {
        self@
    }

    fn camel_case(&self) -> (r: String) {
        if self.as_str().unicode_len() == 0 {
            String::new()
        } else {
            let head = lowercase(self.as_str().get_char(0));
            replace_first(self.as_str(), head.as_str())
        }
    }
}

/// The name with `head` in place of its first character; the empty name
/// stays empty.
pub fn replace_first(name: &str, head: &str) -> (r: String)
    ensures
        r@ == if name@.len() == 0 {
            name@
        } else {
            head@ + name@.subrange(1, name@.len() as int)
        },
{
    let n = name.unicode_len();
    if n == 0 {
        String::new()
    } else {
        String::from_str(head).concat(name.substring_char(1, n))
    }
}

/// Calls `char::to_lowercase` and collects what it yields. The contract only
/// names the result: the lowercase mapping of the character.
#[verifier::external_body]
fn lowercase(c: char) -> (r: String)
    ensures
        r@ == lowercase_of(c),
{
    c.to_lowercase().collect()
}

/// Source of the names that relations get when nothing else is given.
pub struct DefaultNames {}

impl DefaultNames {
    /// The default name of the relation between the models `from` and `to`.
    pub fn relation_name(from: &str, to: &str) -> (r: String)
        ensures
            r@ == default_relation_name(from@, to@),
    {
        if str_lt(from, to) {
            String::from_str(from).concat("To").concat(to)
        } else {
            String::from_str(to).concat("To").concat(from)
        }
    }
}

/// Whether two string slices hold the same characters.
pub fn str_eq(a: &str, b: &str) -> (r: bool)
    ensures
        r == (a@ == b@),
{
    String::from_str(a) == String::from_str(b)
}

/// Whether `a` sorts strictly before `b`.
pub fn str_lt(a: &str, b: &str) -> (r: bool)
    ensures
        r == name_lt(a@, b@),
{
    let n = a.unicode_len();
    let m = b.unicode_len();
    let mut i: usize = 0;
    proof {
        assert(a@.skip(0) =~= a@);
        assert(b@.skip(0) =~= b@);
    }
    while i < n && i < m
        invariant
            i <= n,
            i <= m,
            n == a@.len(),
            m == b@.len(),
            name_lt(a@, b@) == name_lt(a@.skip(i as int), b@.skip(i as int)),
        decreases n - i,
    {
        let ca = a.get_char(i);
        let cb = b.get_char(i);
        proof {
            assert(a@.skip(i as int).drop_first() =~= a@.skip(i as int + 1));
            assert(b@.skip(i as int).drop_first() =~= b@.skip(i as int + 1));
        }
        if ca != cb {
            return ca < cb;
        }
        i += 1;
    }
    i < m
}

/// Whether `a` sorts before `b` or equals it.
pub fn str_le(a: &str, b: &str) -> (r: bool)
    ensures
        r == name_le(a@, b@),
{
    str_eq(a, b) || str_lt(a, b)
}

fn letter(c: char) -> (r: bool)
    ensures
        r == is_letter(c),
{
    (c >= 'a' && c <= 'z') || (c >= 'A' && c <= 'Z')
}

fn identifier_char(c: char) -> (r: bool)
    ensures
        r == is_identifier_char(c),
{
    letter(c) || (c >= '0' && c <= '9') || c == '_'
}

fn reserved(s: &str) -> (r: bool)
    ensures
        r == is_reserved(s@),
{
    str_eq(s, "model") || str_eq(s, "enum") || str_eq(s, "type") || str_eq(s, "datasource")
        || str_eq(s, "generator")
}

proof fn lemma_strip_leading_skip(s: Name, k: int)
    requires
        0 <= k <= s.len(),
        forall|j: int| 0 <= j < k ==> !is_letter(#[trigger] s[j]),
        k == s.len() || is_letter(s[k]),
    ensures
        strip_leading(s) == s.skip(k),
    decreases k,
{
    if k == 0 {
        assert(s.skip(0) =~= s);
    } else {
        assert(!is_letter(s[0]));
        let t = s.drop_first();
        assert forall|j: int| 0 <= j < k - 1 implies !is_letter(#[trigger] t[j]) by {
            assert(t[j] == s[j + 1]);
        }
        lemma_strip_leading_skip(t, k - 1);
        assert(t.skip(k - 1) =~= s.skip(k));
    }
}

/// Coerces a name into an identifier of the model language.
pub fn sanitize_name(name: &str) -> (r: String)
    ensures
        r@ == sanitized(name@),
{
    let n = name.unicode_len();
    let mut k: usize = 0;
    while k < n && !letter(name.get_char(k))
        invariant
            k <= n,
            n == name@.len(),
            forall|j: int| 0 <= j < k ==> !is_letter(#[trigger] name@[j]),
        decreases n - k,
    {
        k += 1;
    }
    proof {
        lemma_strip_leading_skip(name@, k as int);
    }
    let ghost rest = name@.skip(k as int);
    let mut out = String::new();
    let mut i: usize = k;
    while i < n
        invariant
            k <= i <= n,
            n == name@.len(),
            rest == name@.skip(k as int),
            out@ == replace_invalid(rest.take(i - k)),
        decreases n - i,
    {
        let c = name.get_char(i);
        let ghost before = out@;
        if identifier_char(c) {
            out.append(name.substring_char(i, i + 1));
        } else {
            out.append("_");
        }
        proof {
            reveal_strlit("_");
            assert(rest.take(i + 1 - k) =~= rest.take(i - k).push(name@[i as int]));
            assert(name@.subrange(i as int, i + 1) =~= seq![name@[i as int]]);
            assert("_"@ =~= seq!['_']);
            assert(out@ =~= replace_invalid(rest.take(i + 1 - k)));
        }
        i += 1;
    }
    proof {
        assert(rest.take(n - k) =~= rest);
    }
    if reserved(out.as_str()) {
        proof {
            reveal_strlit("_");
            assert("_"@ =~= seq!['_']);
            assert(out@ + "_"@ =~= out@.push('_'));
        }
        out.concat("_")
    } else {
        out
    }
}

proof fn lemma_strip_leading_of_letter_first(s: Name)
    requires
        s.len() == 0 || is_letter(s[0]),
    ensures
        strip_leading(s) == s,
{
}

proof fn lemma_strip_leading_shape(s: Name)
    ensures
        strip_leading(s).len() == 0 || is_letter(strip_leading(s)[0]),
    decreases s.len(),
{
    if s.len() == 0 || is_letter(s[0]) {
    } else {
        lemma_strip_leading_shape(s.drop_first());
    }
}

proof fn lemma_reserved_words()
    ensures
        forall|s: Name| #[trigger]
            is_reserved(s) ==> s.len() > 0 && s.last() != '_' && is_letter(s[0]) && (forall|
                i: int,
            |
                0 <= i < s.len() ==> is_identifier_char(#[trigger] s[i])),
{
    reveal_strlit("model");
    reveal_strlit("enum");
    reveal_strlit("type");
    reveal_strlit("datasource");
    reveal_strlit("generator");
}

/// Sanitizing leaves every valid identifier as it is.
pub proof fn lemma_sanitize_keeps_valid_names(s: Name)
    requires
        is_valid_name(s),
    ensures
        sanitized(s) == s,
{
    lemma_strip_leading_of_letter_first(s);
    assert(replace_invalid(s) =~= s);
}

/// Sanitizing twice gives what sanitizing once gives.
pub proof fn lemma_sanitize_idempotent(s: Name)
    ensures
        sanitized(sanitized(s)) == sanitized(s),
{
    let t = strip_leading(s);
    let r = replace_invalid(t);
    lemma_strip_leading_shape(s);
    lemma_reserved_words();
    assert(forall|i: int| 0 <= i < r.len() ==> is_identifier_char(#[trigger] r[i]));
    let out = sanitized(s);
    if is_reserved(r) {
        assert(out == r.push('_'));
        assert(out.last() == '_');
        assert(!is_reserved(out));
        assert(is_letter(out[0]));
        lemma_strip_leading_of_letter_first(out);
        assert(replace_invalid(out) =~= out);
    } else {
        if r.len() > 0 {
            assert(r[0] == t[0] || r[0] == '_');
            assert(is_letter(t[0]));
            assert(is_identifier_char(t[0]));
            assert(is_letter(r[0]));
        }
        lemma_strip_leading_of_letter_first(r);
        assert(replace_invalid(r) =~= r);
    }
}

/// A sanitized name is empty or a valid identifier.
pub proof fn lemma_sanitized_is_valid_or_empty(s: Name)
    ensures
        sanitized(s).len() == 0 || is_valid_name(sanitized(s)),
{
    let t = strip_leading(s);
    let r = replace_invalid(t);
    lemma_strip_leading_shape(s);
    lemma_reserved_words();
    assert(forall|i: int| 0 <= i < r.len() ==> is_identifier_char(#[trigger] r[i]));
    let out = sanitized(s);
    if is_reserved(r) {
        assert(out.last() == '_');
        assert(forall|i: int| 0 <= i < out.len() ==> is_identifier_char(#[trigger] out[i]));
    } else if r.len() > 0 {
        assert(is_letter(t[0]));
        assert(is_identifier_char(t[0]));
    }
}

} // verus!
