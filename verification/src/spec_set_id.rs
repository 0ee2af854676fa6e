//! Spec set identifiers: a single spec name in the default repository.

use vstd::prelude::*;
use vstd::string::StringExecFns;

verus! {

/// Longest spec name accepted, in bytes.
pub const MAX_SPEC_NAME_LENGTH: usize = 256;

/// A rejected request, with a hint for the caller.
#[derive(Debug, Clone, PartialEq, Eq)]
pub struct RequestError {
    pub message: String,
    pub suggestion: String,
}

/// Unicode `White_Space` characters (what `char::is_whitespace` accepts).
pub open spec fn is_ws(c: char) -> bool {
    let u = c as u32;
    (0x9 <= u <= 0xd) || u == 0x20 || u == 0x85 || u == 0xa0 || u == 0x1680 || (0x2000 <= u <= 0x200a)
        || u == 0x2028 || u == 0x2029 || u == 0x202f || u == 0x205f || u == 0x3000
}

fn char_is_ws(c: char) -> (b: bool)
    ensures
        b == is_ws(c),
{
    let u = c as u32;
    (0x9 <= u && u <= 0xd) || u == 0x20 || u == 0x85 || u == 0xa0 || u == 0x1680 || (0x2000 <= u && u <= 0x200a)
        || u == 0x2028 || u == 0x2029 || u == 0x202f || u == 0x205f || u == 0x3000
}

/// Index of the first non-whitespace character (or the length).
pub open spec fn trim_start(s: Seq<char>) -> int
    decreases s.len(),
{
    if s.len() == 0 {
        0
    } else if is_ws(s[0]) {
        1 + trim_start(s.drop_first())
    } else {
        0
    }
}

/// One past the last non-whitespace character (or 0).
pub open spec fn trim_end(s: Seq<char>) -> int
    decreases s.len(),
{
    if s.len() == 0 {
        0
    } else if is_ws(s.last()) {
        trim_end(s.drop_last())
    } else {
        s.len() as int
    }
}

/// `s` without leading and trailing whitespace.
pub open spec fn trimmed(s: Seq<char>) -> Seq<char> {
    if trim_start(s) >= trim_end(s) {
        Seq::empty()
    } else {
        s.subrange(trim_start(s), trim_end(s))
    }
}

proof fn lemma_trim_start(s: Seq<char>)
    ensures
        0 <= trim_start(s) <= s.len(),
        forall|i: int| 0 <= i < trim_start(s) ==> is_ws(#[trigger] s[i]),
        trim_start(s) < s.len() ==> !is_ws(s[trim_start(s)]),
    decreases s.len(),
{
    if s.len() > 0 && is_ws(s[0]) {
        lemma_trim_start(s.drop_first());
        assert forall|i: int| 0 <= i < trim_start(s) implies is_ws(#[trigger] s[i]) by {
            if i > 0 {
                assert(s[i] == s.drop_first()[i - 1]);
            }
        }
        if trim_start(s) < s.len() {
            assert(s[trim_start(s)] == s.drop_first()[trim_start(s) - 1]);
        }
    }
}

proof fn lemma_trim_end(s: Seq<char>)
    ensures
        0 <= trim_end(s) <= s.len(),
        forall|i: int| trim_end(s) <= i < s.len() ==> is_ws(#[trigger] s[i]),
        trim_end(s) > 0 ==> !is_ws(s[trim_end(s) - 1]),
    decreases s.len(),
{
    if s.len() > 0 && is_ws(s.last()) {
        lemma_trim_end(s.drop_last());
        assert forall|i: int| trim_end(s) <= i < s.len() implies is_ws(#[trigger] s[i]) by {
            if i < s.len() - 1 {
                assert(s[i] == s.drop_last()[i]);
            }
        }
        if trim_end(s) > 0 {
            assert(s[trim_end(s) - 1] == s.drop_last()[trim_end(s) - 1]);
        }
    }
}

pub(crate) fn trim_text(s: &str) -> (r: &str)
    ensures
        r@ == trimmed(s@),
{
    let n = s.unicode_len();
    let mut a: usize = 0;
    proof {
        lemma_trim_start(s@);
        lemma_trim_end(s@);
    }
    while a < n && char_is_ws(s.get_char(a))
        invariant
            n == s@.len(),
            a <= trim_start(s@),
            0 <= trim_start(s@) <= s@.len(),
            forall|i: int| 0 <= i < trim_start(s@) ==> is_ws(#[trigger] s@[i]),
            trim_start(s@) < s@.len() ==> !is_ws(s@[trim_start(s@)]),
        decreases n - a,
    {
        a = a + 1;
    }
    let mut b: usize = n;
    while b > a && char_is_ws(s.get_char(b - 1))
        invariant
            n == s@.len(),
            a == trim_start(s@),
            a <= b <= n,
            b >= trim_end(s@) || a >= trim_end(s@),
            0 <= trim_end(s@) <= s@.len(),
            forall|i: int| trim_end(s@) <= i < s@.len() ==> is_ws(#[trigger] s@[i]),
            trim_end(s@) > 0 ==> !is_ws(s@[trim_end(s@) - 1]),
        decreases b,
    {
        b = b - 1;
    }
    proof {
        if a < trim_end(s@) {
            assert(b == trim_end(s@));
        } else {
            assert(b == a);
        }
    }
    let r = s.substring_char(a, b);
    proof {
        if a >= b {
            assert(r@ =~= Seq::<char>::empty());
        }
    }
    r
}

fn contains_ws(s: &str) -> (b: bool)
    ensures
        b == exists|i: int| 0 <= i < s@.len() && is_ws(#[trigger] s@[i]),
{
    let n = s.unicode_len();
    let mut i: usize = 0;
    while i < n
        invariant
            n == s@.len(),
            i <= n,
            forall|j: int| 0 <= j < i ==> !is_ws(#[trigger] s@[j]),
        decreases n - i,
    {
        if char_is_ws(s.get_char(i)) {
            return true;
        }
        i = i + 1;
    }
    false
}

fn has_char(s: &str, c: char) -> (b: bool)
    ensures
        b == s@.contains(c),
{
    crate::text::contains_char(s, c)
}

fn request_error(message: &str, suggestion: &str) -> (e: RequestError)
    ensures
        e.message@ == message@,
        e.suggestion@ == suggestion@,
{
    RequestError { message: String::from_str(message), suggestion: String::from_str(suggestion) }
}

/// Whether a spec set identifier is accepted: after trimming it is non-empty, holds
/// neither `~` nor `^` nor any whitespace, and is at most [`MAX_SPEC_NAME_LENGTH`]
/// bytes long.
pub open spec fn spec_set_id_accepted(s: Seq<char>) -> bool {
    let t = trimmed(s);
    t.len() > 0 && !t.contains('~') && !t.contains('^') && !(exists|i: int| 0 <= i < t.len() && is_ws(#[trigger] t[i]))
        && (vstd::utf8::encode_utf8(t).len() as usize) <= MAX_SPEC_NAME_LENGTH
}

/// Trimming twice is trimming once.
pub proof fn lemma_trimmed_idempotent(s: Seq<char>)
    ensures
        trimmed(trimmed(s)) == trimmed(s),
{
    lemma_trim_start(s);
    lemma_trim_end(s);
    let t = trimmed(s);
    if t.len() > 0 {
        assert(t[0] == s[trim_start(s)]);
        assert(t.last() == s[trim_end(s) - 1]);
        assert(trim_start(t) == 0);
        assert(trim_end(t) == t.len());
        assert(t.subrange(0, t.len() as int) =~= t);
    } else {
        assert(trimmed(t) =~= t);
    }
}

/// An accepted identifier parses to its trimmed text, and that text is itself
/// accepted and parses to itself: parsing a parsed identifier changes nothing.
pub proof fn lemma_parse_spec_set_id_idempotent(s: Seq<char>)
    requires
        spec_set_id_accepted(s),
    ensures
        spec_set_id_accepted(trimmed(s)),
        trimmed(trimmed(s)) == trimmed(s),
{
    lemma_trimmed_idempotent(s);
}

/// Tab, line feed, vertical tab, form feed, carriage return and space: the ASCII
/// whitespace characters.
pub open spec fn is_ascii_whitespace_char(c: char) -> bool {
    (0x9 <= (c as u32) <= 0xd) || (c as u32) == 0x20
}

/// Every ASCII whitespace character counts as whitespace, as `char::is_whitespace`
/// has it (Unicode `White_Space` includes U+0009..U+000D and U+0020).
pub proof fn lemma_ascii_whitespace_is_whitespace(c: char)
    requires
        is_ascii_whitespace_char(c),
    ensures
        is_ws(c),
{
}

proof fn lemma_trim_start_push(s: Seq<char>, c: char)
    ensures
        trim_start(s) < s.len() ==> trim_start(s.push(c)) == trim_start(s),
        trim_start(s) >= s.len() ==> trim_start(s.push(c)) >= s.len(),
    decreases s.len(),
{
    lemma_trim_start(s);
    lemma_trim_start(s.push(c));
    if s.len() == 0 {
    } else {
        assert(s.push(c)[0] == s[0]);
        assert(s.push(c).drop_first() =~= s.drop_first().push(c));
        lemma_trim_start_push(s.drop_first(), c);
        if is_ws(s[0]) {
            assert(trim_start(s) == 1 + trim_start(s.drop_first()));
            assert(trim_start(s.push(c)) == 1 + trim_start(s.drop_first().push(c)));
        }
    }
}

/// A name followed by ASCII whitespace (a trailing newline, say) trims to the same
/// text as the name alone, so it parses to the same identifier.
pub proof fn lemma_trailing_whitespace_is_trimmed(s: Seq<char>, c: char)
    requires
        is_ascii_whitespace_char(c),
    ensures
        trimmed(s.push(c)) == trimmed(s),
        spec_set_id_accepted(s.push(c)) == spec_set_id_accepted(s),
{
    let t = s.push(c);
    assert(t.last() == c);
    assert(t.drop_last() =~= s);
    assert(trim_end(t) == trim_end(s));
    lemma_trim_start_push(s, c);
    lemma_trim_start(s);
    lemma_trim_end(s);
    if trim_start(s) < trim_end(s) {
        assert(t.subrange(trim_start(t), trim_end(t)) =~= s.subrange(trim_start(s), trim_end(s)));
    }
}

/// An identifier whose trimmed text still holds ASCII whitespace (a newline between
/// a repository and a spec name, say) names more than one thing and is refused.
pub proof fn lemma_inner_whitespace_is_refused(s: Seq<char>, i: int)
    requires
        0 <= i < trimmed(s).len(),
        is_ascii_whitespace_char(trimmed(s)[i]),
    ensures
        !spec_set_id_accepted(s),
{
    assert(is_ws(trimmed(s)[i]));
}

/// Validate and normalize a spec set identifier: trim surrounding whitespace, and
/// reject an empty name, the reserved sigils `~` and `^`, inner whitespace (an extra
/// repository qualifier) and names longer than [`MAX_SPEC_NAME_LENGTH`] bytes.
pub fn parse_spec_set_id(s: &str) -> (r: Result<String, RequestError>)
    ensures
        trimmed(s@).len() == 0 ==> (r is Err && r->Err_0.message@ == "Spec set identifier cannot be empty"@),
        trimmed(s@).len() > 0 && trimmed(s@).contains('~') ==> (r is Err && r->Err_0.message@
            == "Spec set identifier cannot contain '~'"@),
        trimmed(s@).len() > 0 && !trimmed(s@).contains('~') && trimmed(s@).contains('^') ==> (r is Err
            && r->Err_0.message@ == "Spec set identifier cannot contain '^'"@),
        trimmed(s@).len() > 0 && !trimmed(s@).contains('~') && !trimmed(s@).contains('^') && (exists|i: int|
            0 <= i < trimmed(s@).len() && is_ws(#[trigger] trimmed(s@)[i])) ==> (r is Err && r->Err_0.message@
            == "Spec set identifier must be a single spec name"@),
        trimmed(s@).len() > 0 && !trimmed(s@).contains('~') && !trimmed(s@).contains('^') && !(exists|i: int|
            0 <= i < trimmed(s@).len() && is_ws(#[trigger] trimmed(s@)[i])) && (vstd::utf8::encode_utf8(trimmed(s@)).len() as usize)
            > MAX_SPEC_NAME_LENGTH ==> (r is Err && r->Err_0.message@ == "Spec name exceeds maximum length (256 characters)"@),
        r is Ok <==> spec_set_id_accepted(s@),
        r matches Ok(name) ==> name@ == trimmed(s@),
{
    let t = trim_text(s);
    if t.unicode_len() == 0 {
        return Err(request_error("Spec set identifier cannot be empty", "Use a spec set name"));
    }
    if has_char(t, '~') {
        return Err(request_error("Spec set identifier cannot contain '~'", "Use a plain spec name"));
    }
    if has_char(t, '^') {
        return Err(request_error("Spec set identifier cannot contain '^'", "Use a plain spec name"));
    }
    if contains_ws(t) {
        return Err(request_error(
            "Spec set identifier must be a single spec name",
            "Specs run from the default repository; do not include an extra repository qualifier",
        ));
    }
    if t.len() > MAX_SPEC_NAME_LENGTH {
        return Err(request_error("Spec name exceeds maximum length (256 characters)", "Shorten the spec name"));
    }
    Ok(String::from_str(t))
}

} // verus!
