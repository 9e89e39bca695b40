//! Small operations on text that the other modules share, each stated over
//! the text's sequence of characters.

use vstd::prelude::*;
use vstd::string::*;

verus! {

/// The texts of a sequence of strings.
pub open spec fn texts(strings: Seq<String>) -> Seq<Seq<char>> {
    strings.map_values(|s: String| s@)
}

/// The parts written one after the other, with the separator between
/// each two neighbours.
pub open spec fn joined(parts: Seq<Seq<char>>, separator: Seq<char>) -> Seq<char>
    decreases parts.len(),
{
    if parts.len() == 0 {
        Seq::empty()
    } else if parts.len() == 1 {
        parts[0]
    } else {
        joined(parts.drop_last(), separator) + separator + parts.last()
    }
}

/// Whether two texts are the same.
pub fn same_text(a: &str, b: &str) -> (same: bool)
    ensures
        same == (a@ == b@),
{
    a.to_owned() == b.to_owned()
}

/// The two texts, one after the other.
pub fn chain(a: &str, b: &str) -> (both: String)
    ensures
        both@ == a@ + b@,
{
    a.to_owned().concat(b)
}

/// Whether `text` ends with `suffix`.
pub fn ends_with(text: &str, suffix: &str) -> (ends: bool)
    ensures
        ends == suffix@.is_suffix_of(text@),
{
    let n = text.unicode_len();
    let m = suffix.unicode_len();
    if m > n {
        false
    } else {
        same_text(text.substring_char(n - m, n), suffix)
    }
}

/// `text` without its last `count` characters.
pub fn without_last(text: &str, count: usize) -> (head: String)
    requires
        count <= text@.len(),
    ensures
        head@ == text@.subrange(0, text@.len() - count),
{
    let n = text.unicode_len();
    text.substring_char(0, n - count).to_owned()
}

/// Joins the parts, with the separator between each two neighbours.
pub fn join(parts: &Vec<String>, separator: &str) -> (line: String)
    ensures
        line@ == joined(texts(parts@), separator@),
{
    let mut line = String::new();
    let mut i: usize = 0;
    while i < parts.len()
        invariant
            i <= parts.len(),
            line@ == joined(texts(parts@).take(i as int), separator@),
        decreases parts.len() - i,
    {
        let ghost before = texts(parts@).take(i as int);
        let ghost after = texts(parts@).take(i + 1);
        proof {
            assert(after.drop_last() =~= before);
            assert(after.last() == parts@[i as int]@);
        }
        if i > 0 {
            line.append(separator);
        }
        line.append(parts[i].as_str());
        proof {
            if i == 0 {
                assert(line@ =~= after[0]);
            }
        }
        i += 1;
    }
    proof {
        assert(texts(parts@).take(parts.len() as int) =~= texts(parts@));
    }
    line
}

} // verus!
