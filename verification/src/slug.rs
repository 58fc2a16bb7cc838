//! Slugs: the key under which a titled data block is kept in the state.
use vstd::prelude::*;
use vstd::string::StrSliceExecFns;
use crate::text::push_char;

verus! {

/// Whether `char::is_alphanumeric` holds of a character (alphabetic or numeric
/// in Unicode's tables).
pub uninterp spec fn char_is_alphanumeric(c: char) -> bool;

/// An ASCII letter or digit.
pub open spec fn ascii_alphanumeric(c: char) -> bool {
    ('a' <= c && c <= 'z') || ('A' <= c && c <= 'Z') || ('0' <= c && c <= '9')
}

/// What `char::to_ascii_lowercase` gives: `A`..`Z` become `a`..`z`, every other
/// character stays.
pub open spec fn ascii_lowercase(c: char) -> char {
    if 'A' <= c && c <= 'Z' {
        ((c as u32) + 32) as char
    } else {
        c
    }
}

/// Calls `char::is_alphanumeric`. Its result is named `char_is_alphanumeric`.
/// On ASCII characters it holds exactly of letters and digits, so an ASCII
/// upper-case letter and its lower-case letter are both alphanumeric.
#[verifier::external_body]
fn is_alphanumeric(c: char) -> (r: bool)
    ensures
        r == char_is_alphanumeric(c),
        (c as u32) < 128 ==> (r == ascii_alphanumeric(c)),
        ('A' <= c && c <= 'Z') ==> (r == char_is_alphanumeric(ascii_lowercase(c))),
{
    c.is_alphanumeric()
}

/// Lower-cases an ASCII upper-case letter; every other character stays.
fn to_ascii_lowercase(c: char) -> (r: char)
    ensures
        r == ascii_lowercase(c),
{
    if 'A' <= c && c <= 'Z' {
        let b: u8 = (c as u8) + 32;
        b as char
    } else {
        c
    }
}

/// Whether the character is alphanumeric is known as for ASCII: for an ASCII
/// character it holds exactly of letters and digits.
pub open spec fn ascii_alphanumeric_known(c: char) -> bool {
    (c as u32) < 128 ==> (char_is_alphanumeric(c) == ascii_alphanumeric(c))
}

/// The slug of the first characters scanned, and whether the last one scanned
/// was a separator: alphanumeric characters are kept, lower-cased; each run of
/// other characters becomes a single `-`.
pub open spec fn slug_scan(s: Seq<char>) -> (Seq<char>, bool)
    decreases s.len(),
{
    if s.len() == 0 {
        (Seq::empty(), false)
    } else {
        let (out, prev) = slug_scan(s.drop_last());
        let c = s.last();
        if char_is_alphanumeric(c) {
            (out.push(ascii_lowercase(c)), false)
        } else if !prev {
            (out.push('-'), true)
        } else {
            (out, true)
        }
    }
}

/// The slug of a text.
pub open spec fn slug_of(s: Seq<char>) -> Seq<char> {
    slug_scan(s).0
}

/// Turning a title into a slug.
pub trait Slug {
    fn to_slug(&self) -> String;
}

/// A character that a slug may hold: `-`, or an alphanumeric character that
/// lower-casing leaves as it is.
pub open spec fn slug_char(c: char) -> bool {
    c == '-' || (char_is_alphanumeric(c) && ascii_lowercase(c) == c)
}

/// No two `-` follow each other.
pub open spec fn no_double_dash(t: Seq<char>) -> bool {
    forall|i: int| 0 <= i < t.len() - 1 ==> !(#[trigger] t[i] == '-' && t[i + 1] == '-')
}

impl Slug for str {
    /// The slug of the text (each ASCII character of the text counts as
    /// alphanumeric exactly when it is an ASCII letter or digit); it holds
    /// only `-` and lower-cased alphanumeric characters, never two `-` in a
    /// row, is no longer than the text, and is its own slug.
    fn to_slug(&self) -> (r: String)
        ensures
            r@ == slug_of(self@),
            forall|i: int| 0 <= i < r@.len() ==> slug_char(#[trigger] r@[i]),
            no_double_dash(r@),
            r@.len() <= self@.len(),
            slug_of(r@) == r@,
            forall|i: int| 0 <= i < self@.len() ==> ascii_alphanumeric_known(#[trigger] self@[i]),
    {
        let mut slug = String::new();
        let mut prev_was_whitespace = false;
        let n = self.unicode_len();
        let mut i: usize = 0;
        while i < n
            invariant
                n == self@.len(),
                i <= n,
                slug_scan(self@.take(i as int)) == (slug@, prev_was_whitespace),
                prev_was_whitespace == (slug@.len() > 0 && slug@.last() == '-'),
                forall|j: int| 0 <= j < slug@.len() ==> slug_char(#[trigger] slug@[j]),
                no_double_dash(slug@),
                slug@.len() <= i,
                forall|j: int| 0 <= j < i ==> ascii_alphanumeric_known(#[trigger] self@[j]),
            decreases n - i,
        {
            let c = self.get_char(i);
            assert(self@.take(i + 1).drop_last() =~= self@.take(i as int));
            assert(self@.take(i + 1).last() == c);
            let ghost before = slug@;
            let alnum = is_alphanumeric(c);
            assert(ascii_alphanumeric_known(self@[i as int]));
            if alnum {
                let l = to_ascii_lowercase(c);
                proof {
                    if 'A' <= c && c <= 'Z' {
                        assert('a' <= l && l <= 'z');
                    } else {
                        assert(c != '-');
                    }
                    assert(slug_char(l));
                }
                push_char(&mut slug, l);
                prev_was_whitespace = false;
                proof {
                    assert forall|j: int| 0 <= j < slug@.len() implies slug_char(#[trigger] slug@[j]) by {
                        if j < before.len() {
                            assert(slug@[j] == before[j]);
                        }
                    }
                    assert forall|j: int| 0 <= j < slug@.len() - 1 implies !(#[trigger] slug@[j] == '-'
                        && slug@[j + 1] == '-') by {
                        assert(slug@[j] == before[j]);
                        if j + 1 < before.len() {
                            assert(slug@[j + 1] == before[j + 1]);
                        }
                    }
                }
            } else if !prev_was_whitespace {
                push_char(&mut slug, '-');
                prev_was_whitespace = true;
                proof {
                    assert forall|j: int| 0 <= j < slug@.len() implies slug_char(#[trigger] slug@[j]) by {
                        if j < before.len() {
                            assert(slug@[j] == before[j]);
                        }
                    }
                    assert forall|j: int| 0 <= j < slug@.len() - 1 implies !(#[trigger] slug@[j] == '-'
                        && slug@[j + 1] == '-') by {
                        assert(slug@[j] == before[j]);
                        if j + 1 < before.len() {
                            assert(slug@[j + 1] == before[j + 1]);
                        } else {
                            assert(before.last() == before[j]);
                        }
                    }
                }
            }
            i = i + 1;
        }
        assert(self@.take(n as int) =~= self@);
        proof {
            lemma_slug_rescan(slug@);
        }
        slug
    }
}

/// A text made only of slug characters, with no two `-` in a row, is its own
/// slug.
pub proof fn lemma_slug_rescan(t: Seq<char>)
    requires
        forall|i: int| 0 <= i < t.len() ==> slug_char(#[trigger] t[i]),
        no_double_dash(t),
    ensures
        slug_scan(t).0 == t,
        slug_scan(t).1 ==> t.len() > 0 && t.last() == '-',
    decreases t.len(),
{
    if t.len() > 0 {
        let u = t.drop_last();
        assert forall|i: int| 0 <= i < u.len() implies slug_char(#[trigger] u[i]) by {
            assert(u[i] == t[i]);
        }
        assert forall|i: int| 0 <= i < u.len() - 1 implies !(#[trigger] u[i] == '-' && u[i + 1] == '-') by {
            assert(u[i] == t[i] && u[i + 1] == t[i + 1]);
        }
        lemma_slug_rescan(u);
        let c = t.last();
        assert(slug_char(t[t.len() - 1]));
        if char_is_alphanumeric(c) {
        } else {
            if slug_scan(u).1 {
                assert(t[t.len() - 2] == u.last());
            }
        }
        assert(u.push(c) =~= t);
    }
}

} // verus!
