//! The set of convertible filename extensions: the built-in defaults, plus
//! whatever a configuration text names, one extension per line.

use vstd::prelude::*;
use vstd::string::*;

use crate::text::find_newline;
use crate::text::newline_from;
use crate::text::str_eq;
use crate::text::string_views;

verus! {

/// The extensions every run starts with.
pub open spec fn spec_default_extensions() -> Seq<Seq<char>> {
    seq![".prefab"@, ".mat"@, ".asset"@, ".unity"@, ".controller"@]
}

/// The built-in convertible extensions.
pub fn default_extensions() -> (r: Vec<String>)
    ensures
        string_views(r@) == spec_default_extensions(),
{
    let mut v: Vec<String> = Vec::new();
    v.push(".prefab".to_owned());
    v.push(".mat".to_owned());
    v.push(".asset".to_owned());
    v.push(".unity".to_owned());
    v.push(".controller".to_owned());
    proof {
        assert(string_views(v@) =~= spec_default_extensions());
    }
    v
}

/// A line as read: the slice up to the newline, without a trailing carriage
/// return.
pub open spec fn strip_cr(line: Seq<char>) -> Seq<char> {
    if line.len() > 0 && line.last() == '\r' {
        line.drop_last()
    } else {
        line
    }
}

/// One configuration line's effect on the extension list: comment lines
/// starting with `#`, empty lines, and extensions already listed are
/// skipped; anything else is appended.
pub open spec fn apply_config_line(list: Seq<Seq<char>>, line: Seq<char>) -> Seq<Seq<char>> {
    if line.len() == 0 || line[0] == '#' || list.contains(line) {
        list
    } else {
        list.push(line)
    }
}

/// The extension list after reading the configuration text from `i` on,
/// line by line.
pub open spec fn apply_config_from(list: Seq<Seq<char>>, text: Seq<char>, i: int) -> Seq<
    Seq<char>,
>
    decreases text.len() - i,
    via apply_config_from_decreases
{
    if i < 0 || i >= text.len() {
        list
    } else {
        let e = newline_from(text, i);
        let next = if e + 1 <= text.len() {
            e + 1
        } else {
            text.len() as int
        };
        apply_config_from(apply_config_line(list, strip_cr(text.subrange(i, e))), text, next)
    }
}

#[via_fn]
proof fn apply_config_from_decreases(list: Seq<Seq<char>>, text: Seq<char>, i: int) {
    if 0 <= i < text.len() {
        lemma_newline_from_range(text, i);
    }
}

/// The first newline at or after `i` lies between `i` and the text's end.
proof fn lemma_newline_from_range(s: Seq<char>, i: int)
    requires
        0 <= i <= s.len(),
    ensures
        i <= newline_from(s, i) <= s.len(),
    decreases s.len() - i,
{
    if i < s.len() && s[i] != '\n' {
        lemma_newline_from_range(s, i + 1);
    }
}

/// Whether the list already holds this extension.
fn contains_string(list: &Vec<String>, s: &str) -> (r: bool)
    ensures
        r == string_views(list@).contains(s@),
{
    let ghost lv = string_views(list@);
    let n = list.len();
    let mut k: usize = 0;
    while k < n
        invariant
            0 <= k <= n,
            n == list@.len(),
            lv == string_views(list@),
            lv.len() == n,
            forall|j: int| 0 <= j < n ==> lv[j] == list@[j]@,
            forall|j: int| 0 <= j < k ==> lv[j] != s@,
        decreases n - k,
    {
        if str_eq(list[k].as_str(), s) {
            proof {
                assert(lv[k as int] == s@);
            }
            return true;
        }
        k = k + 1;
    }
    proof {
        if lv.contains(s@) {
            let j = choose|j: int| 0 <= j < lv.len() && lv[j] == s@;
        }
    }
    false
}

/// Adds the extensions a configuration text names to the list: one
/// extension per line, comment lines starting with `#` and empty lines
/// skipped, duplicates not added again.
pub fn add_extensions(list: &mut Vec<String>, text: &str)
    ensures
        string_views(final(list)@) == apply_config_from(string_views(old(list)@), text@, 0),
{
    let n = text.unicode_len();
    let mut i: usize = 0;
    while i < n
        invariant
            0 <= i <= n,
            n == text@.len(),
            apply_config_from(string_views(list@), text@, i as int) == apply_config_from(
                string_views(old(list)@),
                text@,
                0,
            ),
        decreases n - i,
    {
        let ghost lv = string_views(list@);
        let e = find_newline(text, i);
        let line_end = if e > i && text.get_char(e - 1) == '\r' {
            e - 1
        } else {
            e
        };
        let line = text.substring_char(i, line_end).to_owned();
        proof {
            assert(line@ =~= strip_cr(text@.subrange(i as int, e as int)));
        }
        let mut skip = line.as_str().unicode_len() == 0;
        if !skip && line.as_str().get_char(0) == '#' {
            skip = true;
        }
        if !skip && contains_string(list, line.as_str()) {
            skip = true;
        }
        if !skip {
            list.push(line);
            proof {
                assert(string_views(list@) =~= lv.push(
                    strip_cr(text@.subrange(i as int, e as int)),
                ));
            }
        }
        proof {
            assert(string_views(list@) == apply_config_line(
                lv,
                strip_cr(text@.subrange(i as int, e as int)),
            ));
            lemma_newline_from_range(text@, i as int);
        }
        i = if e == n {
            n
        } else {
            e + 1
        };
    }
    proof {
        assert(apply_config_from(string_views(list@), text@, i as int) == string_views(list@));
    }
}

} // verus!
