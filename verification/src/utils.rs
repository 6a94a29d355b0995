//! Text and relative-path helpers shared by the registry and the deploy pass.
//!
//! A relative path is a `Vec<String>` of components; its mathematical model is
//! the `Seq<Seq<char>>` given by `deep_view`.

use vstd::prelude::*;

verus! {

// ---------------------------------------------------------------------------
// Case folding (trusted)
// ---------------------------------------------------------------------------

/// The lowercase form that `str::to_lowercase` gives to a sequence of
/// characters.
pub uninterp spec fn lower_of(s: Seq<char>) -> Seq<char>;

/// Relies on `str::to_lowercase`: the result depends on the characters alone,
/// and an empty string stays empty.
#[verifier::external_body]
pub(crate) fn to_lower(s: &str) -> (r: String)
    ensures
        r@ == lower_of(s@),
        s@.len() == 0 ==> r@.len() == 0,
{
    s.to_lowercase()
}

/// The uppercase form that `char::to_uppercase` gives to one character.
pub uninterp spec fn upper_of(c: char) -> Seq<char>;

/// Relies on `char::to_uppercase`: the result depends on the character alone.
#[verifier::external_body]
pub(crate) fn char_upper(c: char) -> (r: String)
    ensures
        r@ == upper_of(c),
{
    c.to_uppercase().collect()
}

// ---------------------------------------------------------------------------
// Substring search
// ---------------------------------------------------------------------------

/// `needle` occurs contiguously somewhere in `hay`.
pub open spec fn is_substring(hay: Seq<char>, needle: Seq<char>) -> bool {
    exists|i: int|
        0 <= i && i + needle.len() <= hay.len() && #[trigger] hay.subrange(i, i + needle.len())
            == needle
}

/// Does `needle` occur in `hay` starting at position `i`?
fn match_at(hay: &str, needle: &str, i: usize) -> (r: bool)
    requires
        i + needle@.len() <= hay@.len(),
    ensures
        r == (hay@.subrange(i as int, i as int + needle@.len()) == needle@),
{
    let hlen: usize = hay.unicode_len();
    let nlen: usize = needle.unicode_len();
    let ghost window = hay@.subrange(i as int, i as int + needle@.len());
    let mut j: usize = 0;
    while j < nlen
        invariant
            hlen == hay@.len(),
            nlen == needle@.len(),
            i + nlen <= hlen,
            j <= nlen,
            window == hay@.subrange(i as int, i as int + needle@.len()),
            forall|m: int| 0 <= m < j ==> window[m] == needle@[m],
        decreases nlen - j,
    {
        if hay.get_char(i + j) != needle.get_char(j) {
            assert(window[j as int] != needle@[j as int]);
            return false;
        }
        j += 1;
    }
    proof {
        assert(window =~= needle@);
    }
    true
}

/// Substring test, exactly `is_substring` on the views.
pub fn contains_str(hay: &str, needle: &str) -> (r: bool)
    ensures
        r == is_substring(hay@, needle@),
{
    let hlen: usize = hay.unicode_len();
    let nlen: usize = needle.unicode_len();
    if nlen > hlen {
        return false;
    }
    if nlen == 0 {
        proof {
            assert(hay@.subrange(0, 0 + needle@.len() as int) =~= needle@);
        }
        return true;
    }
    let mut i: usize = 0;
    while i <= hlen - nlen
        invariant
            hlen == hay@.len(),
            nlen == needle@.len(),
            0 < nlen <= hlen,
            i <= hlen - nlen + 1,
            forall|k: int|
                0 <= k < i ==> #[trigger] hay@.subrange(k, k + needle@.len()) != needle@,
        decreases hlen - nlen - i + 1,
    {
        if match_at(hay, needle, i) {
            return true;
        }
        i += 1;
    }
    false
}

// ---------------------------------------------------------------------------
// Canonical capitalization
// ---------------------------------------------------------------------------

/// A component re-titled to its canonical capitalized form: the first
/// character uppercased, the rest unchanged.
pub open spec fn capitalized(s: Seq<char>) -> Seq<char> {
    if s.len() == 0 {
        s
    } else {
        upper_of(s[0]) + s.skip(1)
    }
}

/// Capitalize one path component.
pub fn capitalize_component(part: &str) -> (r: String)
    ensures
        r@ == capitalized(part@),
{
    let len: usize = part.unicode_len();
    if len == 0 {
        let r = String::new();
        proof {
            assert(r@ =~= capitalized(part@));
        }
        r
    } else {
        let mut out = char_upper(part.get_char(0));
        let rest = part.substring_char(1, len);
        out.append(rest);
        proof {
            assert(part@.subrange(1, part@.len() as int) =~= part@.skip(1));
        }
        out
    }
}

/// Capitalize every component of a relative path.
pub fn capitalize_path(rel: &Vec<String>) -> (r: Vec<String>)
    ensures
        r@.len() == rel@.len(),
        forall|k: int| 0 <= k < rel@.len() ==> #[trigger] r@[k]@ == capitalized(rel@[k]@),
{
    let mut out: Vec<String> = Vec::new();
    let mut k: usize = 0;
    while k < rel.len()
        invariant
            k <= rel@.len(),
            out@.len() == k,
            forall|m: int| 0 <= m < k ==> #[trigger] out@[m]@ == capitalized(rel@[m]@),
        decreases rel@.len() - k,
    {
        let cap = capitalize_component(rel[k].as_str());
        out.push(cap);
        k += 1;
    }
    out
}

// ---------------------------------------------------------------------------
// File names: stem and extension
// ---------------------------------------------------------------------------

/// Index of the last `'.'` in `name`, or `-1` if there is none.
pub open spec fn last_dot(name: Seq<char>) -> int
    decreases name.len(),
{
    if name.len() == 0 {
        -1
    } else if name.last() == '.' {
        name.len() - 1
    } else {
        last_dot(name.drop_last())
    }
}

/// Does the file name have an extension?  Following the rules of
/// `std::path::Path::extension`: there is a `'.'` after the first character.
pub open spec fn has_extension(name: Seq<char>) -> bool {
    last_dot(name) > 0
}

/// The stem of a file name: everything before the last `'.'`, unless the only
/// `'.'` leads the name, in which case the whole name.
pub open spec fn stem_of(name: Seq<char>) -> Seq<char> {
    if has_extension(name) {
        name.take(last_dot(name))
    } else {
        name
    }
}

proof fn lemma_last_dot_range(name: Seq<char>)
    ensures
        -1 <= last_dot(name) < name.len(),
        last_dot(name) >= 0 ==> name[last_dot(name)] == '.',
        forall|k: int| last_dot(name) < k < name.len() ==> name[k] != '.',
    decreases name.len(),
{
    if name.len() > 0 && name.last() != '.' {
        lemma_last_dot_range(name.drop_last());
        assert forall|k: int| last_dot(name) < k < name.len() implies name[k] != '.' by {
            if k < name.len() - 1 {
                assert(name[k] == name.drop_last()[k]);
            }
        }
    }
}

/// Find the last `'.'` of a file name, if any.
fn find_last_dot(name: &str) -> (r: Option<usize>)
    ensures
        match r {
            Some(i) => last_dot(name@) == i,
            None => last_dot(name@) == -1,
        },
{
    let len: usize = name.unicode_len();
    proof {
        assert(name@.take(len as int) =~= name@);
    }
    let mut k: usize = len;
    while k > 0
        invariant
            len == name@.len(),
            k <= len,
            last_dot(name@) == last_dot(name@.take(k as int)),
        decreases k,
    {
        proof {
            assert(name@.take(k as int).drop_last() =~= name@.take(k - 1));
            assert(name@.take(k as int).last() == name@[k - 1]);
        }
        if name.get_char(k - 1) == '.' {
            return Some(k - 1);
        }
        k -= 1;
    }
    proof {
        assert(name@.take(0) =~= Seq::<char>::empty());
    }
    None
}

/// Does the file name have an extension, as `std::path::Path::extension`
/// understands it?
pub fn name_has_extension(name: &str) -> (r: bool)
    ensures
        r == has_extension(name@),
{
    match find_last_dot(name) {
        Some(i) => i > 0,
        None => false,
    }
}

/// The stem of a file name, exactly `stem_of` on the view.
pub fn name_stem(name: &str) -> (r: String)
    ensures
        r@ == stem_of(name@),
{
    proof {
        lemma_last_dot_range(name@);
    }
    match find_last_dot(name) {
        Some(i) => {
            if i > 0 {
                let r = name.substring_char(0, i);
                proof {
                    assert(name@.subrange(0, i as int) =~= name@.take(i as int));
                }
                r.to_owned()
            } else {
                name.to_owned()
            }
        },
        None => name.to_owned(),
    }
}

/// The mod name taken from an archive's file path: the stem of its last
/// component, or nothing for an empty path.
pub fn mod_name(file: &Vec<String>) -> (r: Option<String>)
    ensures
        match r {
            Some(s) => file@.len() > 0 && s@ == stem_of(file@.last()@),
            None => file@.len() == 0,
        },
{
    if file.len() == 0 {
        None
    } else {
        Some(name_stem(file[file.len() - 1].as_str()))
    }
}

/// Clone a list of components; the copy has exactly the old view.
pub fn clone_strings(v: &Vec<String>) -> (r: Vec<String>)
    ensures
        r@ == v@,
{
    let mut out: Vec<String> = Vec::new();
    let mut k: usize = 0;
    while k < v.len()
        invariant
            k <= v@.len(),
            out@ == v@.take(k as int),
        decreases v@.len() - k,
    {
        out.push(v[k].clone());
        proof {
            assert(out@ =~= v@.take(k + 1));
        }
        k += 1;
    }
    proof {
        assert(v@.take(v@.len() as int) =~= v@);
    }
    out
}

// ---------------------------------------------------------------------------
// Ancestor directories
// ---------------------------------------------------------------------------

/// The proper, non-empty prefixes of a relative path, deepest first: the
/// directories to try to remove, bottom up, after deleting the file.
pub fn ancestors(rel: &Vec<String>) -> (r: Vec<Vec<String>>)
    ensures
        rel@.len() == 0 ==> r@.len() == 0,
        rel@.len() > 0 ==> r@.len() == rel@.len() - 1,
        forall|k: int|
            0 <= k < r@.len() ==> #[trigger] r@[k].deep_view() == rel.deep_view().take(
                rel@.len() - 1 - k,
            ),
{
    let mut out: Vec<Vec<String>> = Vec::new();
    if rel.len() == 0 {
        return out;
    }
    let mut take: usize = rel.len() - 1;
    while take > 0
        invariant
            take <= rel@.len() - 1,
            out@.len() == rel@.len() - 1 - take,
            forall|k: int|
                0 <= k < out@.len() ==> #[trigger] out@[k].deep_view() == rel.deep_view().take(
                    rel@.len() - 1 - k,
                ),
        decreases take,
    {
        let mut prefix: Vec<String> = Vec::new();
        let mut m: usize = 0;
        while m < take
            invariant
                take <= rel@.len(),
                m <= take,
                prefix@.len() == m,
                forall|q: int| 0 <= q < m ==> #[trigger] prefix@[q]@ == rel@[q]@,
            decreases take - m,
        {
            prefix.push(rel[m].clone());
            m += 1;
        }
        proof {
            assert(prefix.deep_view() =~= rel.deep_view().take(take as int));
        }
        out.push(prefix);
        take -= 1;
    }
    out
}

} // verus!
