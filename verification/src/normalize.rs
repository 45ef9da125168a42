//! The canonical name of the package that a dependency specifier asks for.
//!
//! A specifier such as `Click>=7.0` starts with the package's name and goes on
//! with whatever narrows the request: versions, extras, environment markers.
//! Only the name matters here. It is read up to the first character that
//! cannot belong to one, each of its letters is put into lower case, and its
//! separators are all written as a hyphen.

use vstd::prelude::*;
use vstd::std_specs::iter::IteratorSpec;
use crate::chars::{is_ascii_char, is_letter, is_space, lemma_lower_of_ascii, lower};

verus! {

/// One of the three characters that may join the parts of a package name.
pub open spec fn is_separator(c: char) -> bool {
    c == '-' || c == '.' || c == '_'
}

/// The first position of `s`, at or after `from`, that holds no white space;
/// the length of `s` where only white space is left.
pub open spec fn skip_space(s: Seq<char>, from: int) -> int
    decreases s.len() - from,
{
    if 0 <= from < s.len() && is_space(s[from]) {
        skip_space(s, from + 1)
    } else {
        from
    }
}

/// Whether the character at position `i` of `s` can be part of a name: it is a
/// letter, or a separator with a letter right behind it.
pub open spec fn in_name(s: Seq<char>, i: int) -> bool {
    &&& 0 <= i < s.len()
    &&& is_letter(s[i]) || (is_separator(s[i]) && i + 1 < s.len() && is_letter(s[i + 1]))
}

/// The first position of `s`, at or after `from`, that cannot be part of a
/// name.
pub open spec fn name_end(s: Seq<char>, from: int) -> int
    decreases s.len() - from,
{
    if in_name(s, from) {
        name_end(s, from + 1)
    } else {
        from
    }
}

/// What a character of a name is written as: a letter as its lower case,
/// which may take more than one character, and a separator as a hyphen.
pub open spec fn written(c: char) -> Seq<char> {
    if is_letter(c) {
        lower(c)
    } else {
        seq!['-']
    }
}

/// A stretch of a specifier with each character as it is written in a name,
/// one after the other.
pub open spec fn canonical_form(s: Seq<char>) -> Seq<char>
    decreases s.len(),
{
    if s.len() == 0 {
        Seq::empty()
    } else {
        canonical_form(s.drop_last()) + written(s.last())
    }
}

/// Whether a letter stands behind the leading white space of `raw`.
pub open spec fn has_leading_letter(raw: Seq<char>) -> bool {
    let start = skip_space(raw, 0);
    start < raw.len() && is_letter(raw[start])
}

/// The canonical name that the specifier `raw` starts with, after any white
/// space, if it starts with a letter there; `None` if it does not.
pub open spec fn normalize(raw: Seq<char>) -> Option<Seq<char>> {
    let start = skip_space(raw, 0);
    if has_leading_letter(raw) {
        Some(canonical_form(raw.subrange(start, name_end(raw, start))))
    } else {
        None
    }
}

/// The text of an optional string.
pub open spec fn text_of(s: Option<String>) -> Option<Seq<char>> {
    match s {
        Some(s) => Some(s@),
        None => None,
    }
}

/// `skip_space` stops inside the string, on the first character after `from`
/// that is no white space.
pub proof fn lemma_skip_space(s: Seq<char>, from: int)
    requires
        0 <= from <= s.len(),
    ensures
        from <= skip_space(s, from) <= s.len(),
        forall|i: int| from <= i < skip_space(s, from) ==> is_space(#[trigger] s[i]),
        skip_space(s, from) < s.len() ==> !is_space(s[skip_space(s, from)]),
    decreases s.len() - from,
{
    if from < s.len() && is_space(s[from]) {
        lemma_skip_space(s, from + 1);
    }
}

/// `name_end` stops inside the string, on the first position after `from`
/// that cannot be part of a name.
pub proof fn lemma_name_end(s: Seq<char>, from: int)
    requires
        0 <= from <= s.len(),
    ensures
        from <= name_end(s, from) <= s.len(),
        forall|i: int| from <= i < name_end(s, from) ==> #[trigger] in_name(s, i),
        !in_name(s, name_end(s, from)),
    decreases s.len() - from,
{
    if in_name(s, from) {
        lemma_name_end(s, from + 1);
    }
}

/// A letter as a canonical name holds it: one that is its own lower case.
pub open spec fn is_canonical_letter(c: char) -> bool {
    is_letter(c) && lower(c) == seq![c]
}

/// Whether position `i` of `name` holds what a canonical name may hold
/// there: a canonical letter, or a hyphen with a canonical letter right
/// behind it.
pub open spec fn is_canonical_at(name: Seq<char>, i: int) -> bool {
    is_canonical_letter(name[i]) || (name[i] == '-' && i + 1 < name.len() && is_canonical_letter(
        name[i + 1],
    ))
}

/// A canonical name: runs of lower-case letters with single hyphens between
/// them. It is not empty, every hyphen has a letter on both sides, and its
/// first letter does not count as white space.
pub open spec fn is_canonical(name: Seq<char>) -> bool {
    &&& name.len() > 0
    &&& is_canonical_letter(name[0])
    &&& !is_space(name[0])
    &&& forall|i: int| 0 <= i < name.len() ==> #[trigger] is_canonical_at(name, i)
}

/// A specifier is rejected exactly when no letter stands behind its leading
/// white space: when it is empty or blank (`k` is its length), or when its
/// first visible character, at position `k`, is not a letter.
pub proof fn lemma_rejected_without_leading_letter(raw: Seq<char>, k: int)
    requires
        0 <= k <= raw.len(),
        forall|i: int| 0 <= i < k ==> is_space(#[trigger] raw[i]),
        k < raw.len() ==> !is_space(raw[k]),
    ensures
        normalize(raw) is None <==> (k == raw.len() || !is_letter(raw[k])),
{
    lemma_skip_space(raw, 0);
}

/// In a canonical name every position from `from` on is part of the name.
proof fn lemma_canonical_name_end(name: Seq<char>, from: int)
    requires
        is_canonical(name),
        0 <= from <= name.len(),
    ensures
        name_end(name, from) == name.len(),
    decreases name.len() - from,
{
    if from < name.len() {
        assert(is_canonical_at(name, from));
        lemma_canonical_name_end(name, from + 1);
    }
}

/// Every stretch from the start of a canonical name is written as it stands.
proof fn lemma_canonical_form_of_canonical(name: Seq<char>, upto: int)
    requires
        is_canonical(name),
        0 <= upto <= name.len(),
    ensures
        canonical_form(name.take(upto)) == name.take(upto),
    decreases upto,
{
    if upto > 0 {
        let stretch = name.take(upto);
        lemma_canonical_form_of_canonical(name, upto - 1);
        assert(stretch.drop_last() =~= name.take(upto - 1));
        assert(is_canonical_at(name, upto - 1));
        assert(written(stretch.last()) == seq![name[upto - 1]]);
        assert(name.take(upto - 1) + seq![name[upto - 1]] =~= stretch);
    } else {
        assert(name.take(0) =~= Seq::<char>::empty());
    }
}

/// A canonical name is its own canonical name.
pub proof fn lemma_canonical_is_unchanged(name: Seq<char>)
    requires
        is_canonical(name),
    ensures
        normalize(name) == Some(name),
{
    lemma_canonical_name_end(name, 0);
    lemma_canonical_form_of_canonical(name, name.len() as int);
    assert(name.subrange(0, name.len() as int) =~= name);
    assert(name.take(name.len() as int) =~= name);
}

/// Whether the lower case of `c` can stand in a canonical name: it is not
/// empty, each of its characters is a canonical letter, and none of them
/// counts as white space.
pub open spec fn lowers_to_letters(c: char) -> bool {
    &&& lower(c).len() > 0
    &&& forall|j: int|
        0 <= j < lower(c).len() ==> is_canonical_letter(#[trigger] lower(c)[j]) && !is_space(
            lower(c)[j],
        )
}

/// Whether every letter of the name that `raw` starts with has a lower case
/// that can stand in a canonical name.
pub open spec fn has_plain_letters(raw: Seq<char>) -> bool {
    let start = skip_space(raw, 0);
    forall|i: int|
        start <= i < name_end(raw, start) && is_letter(#[trigger] raw[i]) ==> lowers_to_letters(
            raw[i],
        )
}

/// The lower case of an ASCII letter can stand in a canonical name.
pub proof fn lemma_ascii_lowers_to_letters(c: char)
    requires
        is_ascii_char(c),
        is_letter(c),
    ensures
        lowers_to_letters(c),
{
    lemma_lower_of_ascii(c);
    lemma_lower_of_ascii(lower(c)[0]);
}

/// A name that is all ASCII has letters of that kind.
pub proof fn lemma_ascii_name_has_plain_letters(raw: Seq<char>)
    requires
        forall|i: int|
            skip_space(raw, 0) <= i < name_end(raw, skip_space(raw, 0)) ==> is_ascii_char(
                #[trigger] raw[i],
            ),
    ensures
        has_plain_letters(raw),
{
    let start = skip_space(raw, 0);
    assert forall|i: int|
        start <= i < name_end(raw, start) && is_letter(#[trigger] raw[i]) implies lowers_to_letters(
        raw[i],
    ) by {
        lemma_ascii_lowers_to_letters(raw[i]);
    }
}

/// Whether `out` has the shape of a canonical name as far as it goes:
/// letters, and hyphens with a letter right behind them, but for a hyphen at
/// the very end, which may stand there only while a letter is `pending`.
spec fn is_shaped(out: Seq<char>, pending: bool) -> bool {
    forall|i: int|
        0 <= i < out.len() ==> is_canonical_letter(#[trigger] out[i]) || (out[i] == '-' && (if i
            + 1 < out.len() {
            is_canonical_letter(out[i + 1])
        } else {
            pending
        }))
}

/// Whether `stretch` is a name as it stands in a specifier: letters whose
/// lower case can stand in a canonical name, and other characters with a
/// letter right behind them.
spec fn is_name_stretch(stretch: Seq<char>) -> bool {
    forall|j: int|
        0 <= j < stretch.len() ==> if is_letter(#[trigger] stretch[j]) {
            lowers_to_letters(stretch[j])
        } else {
            j + 1 < stretch.len() && is_letter(stretch[j + 1])
        }
}

/// What the first `upto` characters of a name are written as has the shape
/// of a canonical name, and starts as the lower case of the first does.
proof fn lemma_written_is_shaped(stretch: Seq<char>, upto: int)
    requires
        is_name_stretch(stretch),
        0 <= upto <= stretch.len(),
        stretch.len() > 0,
        is_letter(stretch[0]),
    ensures
        is_shaped(canonical_form(stretch.take(upto)), upto > 0 && !is_letter(stretch[upto - 1])),
        upto > 0 ==> canonical_form(stretch.take(upto)).len() > 0 && canonical_form(
            stretch.take(upto),
        )[0] == lower(stretch[0])[0],
    decreases upto,
{
    if upto > 0 {
        let k = upto - 1;
        let c = stretch[k];
        let shorter = canonical_form(stretch.take(k));
        let longer = canonical_form(stretch.take(upto));
        lemma_written_is_shaped(stretch, k);
        assert(stretch.take(upto).drop_last() =~= stretch.take(k));
        assert(longer == shorter + written(c));
        assert(is_letter(c) ==> lowers_to_letters(c));
        if k > 0 {
            assert(!is_letter(stretch[k - 1]) ==> is_letter(c));
        }
        assert forall|i: int| 0 <= i < longer.len() implies is_canonical_letter(
            #[trigger] longer[i],
        ) || (longer[i] == '-' && (if i + 1 < longer.len() {
            is_canonical_letter(longer[i + 1])
        } else {
            !is_letter(c)
        })) by {
            if i < shorter.len() {
                assert(longer[i] == shorter[i]);
                assert(is_canonical_letter(shorter[i]) || (shorter[i] == '-' && (if i + 1
                    < shorter.len() {
                    is_canonical_letter(shorter[i + 1])
                } else {
                    k > 0 && !is_letter(stretch[k - 1])
                })));
                if i + 1 < shorter.len() {
                    assert(longer[i + 1] == shorter[i + 1]);
                } else if is_letter(c) {
                    assert(longer[i + 1] == lower(c)[0]);
                }
            } else {
                assert(longer[i] == written(c)[i - shorter.len()]);
                if i + 1 < longer.len() {
                    assert(longer[i + 1] == written(c)[i + 1 - shorter.len()]);
                }
            }
        }
        if k == 0 {
            assert(stretch.take(0) =~= Seq::<char>::empty());
            assert(shorter =~= Seq::<char>::empty());
            assert(longer =~= lower(c));
        } else {
            assert(longer[0] == shorter[0]);
        }
    } else {
        assert(stretch.take(0) =~= Seq::<char>::empty());
    }
}

/// A name whose letters all have a lower case that can stand in a canonical
/// name comes out canonical.
pub proof fn lemma_normalize_is_canonical(raw: Seq<char>)
    requires
        normalize(raw) is Some,
        has_plain_letters(raw),
    ensures
        is_canonical(normalize(raw)->0),
{
    let start = skip_space(raw, 0);
    let end = name_end(raw, start);
    let stretch = raw.subrange(start, end);
    let name = normalize(raw)->0;
    lemma_skip_space(raw, 0);
    lemma_name_end(raw, start);
    assert(in_name(raw, start));
    assert forall|j: int| 0 <= j < stretch.len() implies if is_letter(#[trigger] stretch[j]) {
        lowers_to_letters(stretch[j])
    } else {
        j + 1 < stretch.len() && is_letter(stretch[j + 1])
    } by {
        assert(in_name(raw, start + j));
        assert(stretch[j] == raw[start + j]);
        if !is_letter(stretch[j]) {
            assert(in_name(raw, start + j + 1));
            assert(stretch[j + 1] == raw[start + j + 1]);
        }
    }
    lemma_written_is_shaped(stretch, stretch.len() as int);
    assert(stretch.take(stretch.len() as int) =~= stretch);
    assert(is_letter(stretch[stretch.len() - 1]));
    assert(lowers_to_letters(stretch[0]));
    assert forall|i: int| 0 <= i < name.len() implies #[trigger] is_canonical_at(name, i) by {
        assert(is_canonical_letter(name[i]) || (name[i] == '-' && (if i + 1 < name.len() {
            is_canonical_letter(name[i + 1])
        } else {
            false
        })));
    }
}

/// Normalizing twice gives what normalizing once gives, for a name whose
/// letters all have a lower case that can stand in a canonical name.
pub proof fn lemma_normalize_idempotent(raw: Seq<char>)
    requires
        normalize(raw) is Some,
        has_plain_letters(raw),
    ensures
        normalize(normalize(raw)->0) == normalize(raw),
{
    lemma_normalize_is_canonical(raw);
    lemma_canonical_is_unchanged(normalize(raw)->0);
}

/// A stretch that is longer by one character is written as the shorter one,
/// with that character behind it.
proof fn lemma_canonical_form_push(s: Seq<char>, from: int, to: int)
    requires
        0 <= from <= to < s.len(),
    ensures
        canonical_form(s.subrange(from, to + 1)) == canonical_form(s.subrange(from, to)) + written(
            s[to],
        ),
{
    assert(s.subrange(from, to + 1).drop_last() =~= s.subrange(from, to));
}

/// Appends the lower case of `c` to `name`.
fn push_lower(name: &mut String, c: char)
    ensures
        final(name)@ == old(name)@ + lower(c),
{
    if c <= '\x7f' {
        proof {
            lemma_lower_of_ascii(c);
        }
        let ghost before = name@;
        name.push(c.to_ascii_lowercase());
        assert(name@ =~= before + lower(c));
    } else {
        let mut one = String::new();
        one.push(c);
        assert(one@ =~= seq![c]);
        let lowered = one.as_str().to_lowercase();
        name.append(lowered.as_str());
    }
}

/// Reads the package name off the front of a dependency specifier.
///
/// Leading white space is passed over. The name has to start with a letter;
/// it goes on through letters and through any of `-`, `.`, `_` that a letter
/// follows, and ends before anything else. Each letter comes out in lower
/// case and each separator as `-`. A specifier with no letter at its start
/// (an empty or blank line, a comment, an option) has no name. The name
/// comes out canonical wherever the lower case of its letters is made of
/// lower-case letters, as it is for every ASCII name.
pub fn get_python_dependency(dep: String) -> (name: Option<String>)
    ensures
        text_of(name) == normalize(dep@),
        name is Some <==> has_leading_letter(dep@),
        name matches Some(name) ==> has_plain_letters(dep@) ==> is_canonical(name@),
{
    let ghost s = dep@;
    let mut chars = dep.as_str().chars();
    let mut first = chars.next();
    let ghost mut start: int = 0;
    loop
        invariant
            s == dep@,
            0 <= start <= s.len(),
            skip_space(s, 0) == skip_space(s, start),
            first == (if start < s.len() { Some(s[start]) } else { None }),
            chars.remaining() =~= (if start < s.len() { s.skip(start + 1) } else { Seq::empty() }),
        ensures
            0 <= start <= s.len(),
            start == skip_space(s, 0),
            first == (if start < s.len() { Some(s[start]) } else { None }),
            chars.remaining() =~= (if start < s.len() { s.skip(start + 1) } else { Seq::empty() }),
        decreases s.len() - start,
    {
        match first {
            Some(c) => {
                if c.is_whitespace() {
                    first = chars.next();
                    proof {
                        start = start + 1;
                    }
                } else {
                    break;
                }
            },
            None => {
                break;
            },
        }
    }
    let head = match first {
        Some(c) => c,
        None => {
            return None;
        },
    };
    if !head.is_alphabetic() {
        return None;
    }
    let mut name = String::new();
    push_lower(&mut name, head);
    let ghost mut at: int = start + 1;
    proof {
        let one = s.subrange(start, start + 1);
        assert(one.drop_last() =~= Seq::<char>::empty());
        assert(canonical_form(one.drop_last()) =~= Seq::<char>::empty());
        assert(name@ =~= canonical_form(one));
        if has_plain_letters(s) {
            lemma_normalize_is_canonical(s);
        }
    }
    loop
        invariant
            s == dep@,
            has_plain_letters(s) ==> is_canonical(normalize(s)->0),
            0 <= start < at <= s.len(),
            start == skip_space(s, 0),
            is_letter(s[start]),
            name_end(s, start) == name_end(s, at),
            name@ =~= canonical_form(s.subrange(start, at)),
            chars.remaining() =~= s.skip(at),
        decreases s.len() - at,
    {
        let c = match chars.next() {
            Some(c) => c,
            None => {
                return Some(name);
            },
        };
        if c.is_alphabetic() {
            push_lower(&mut name, c);
            proof {
                lemma_canonical_form_push(s, start, at);
                at = at + 1;
            }
        } else if c == '-' || c == '.' || c == '_' {
            let follower = match chars.next() {
                Some(d) => d,
                None => {
                    return Some(name);
                },
            };
            if !follower.is_alphabetic() {
                return Some(name);
            }
            let ghost before = name@;
            name.push('-');
            push_lower(&mut name, follower);
            proof {
                assert(in_name(s, at) && in_name(s, at + 1));
                assert(name_end(s, at + 1) == name_end(s, at + 2));
                lemma_canonical_form_push(s, start, at);
                lemma_canonical_form_push(s, start, at + 1);
                assert(name@ =~= before + seq!['-'] + lower(follower));
                at = at + 2;
            }
        } else {
            return Some(name);
        }
    }
}

} // verus!
