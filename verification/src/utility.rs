//! String utilities of the engine: digit-stripping version comparison and
//! interface-number formatting, plus the release metadata returned by the
//! self-update lookup.

use vstd::prelude::*;
use crate::config::known_folder_name;

verus! {

/// `c` is one of the characters `'0'` through `'9'`.
pub open spec fn is_ascii_digit_char(c: char) -> bool {
    '0' <= c && c <= '9'
}

/// The subsequence of ASCII digit characters of `s`, in order.
pub open spec fn digits_of(s: Seq<char>) -> Seq<char> {
    s.filter(|c: char| is_ascii_digit_char(c))
}

/// Relies on `regex::Regex::replace_all`: replacing every match of the
/// single-character class complementary to `0-9` with the empty string
/// leaves exactly the ASCII digit characters, in their original order.
#[verifier::external_body]
fn remove_non_digit_chars(s: &str) -> (r: String)
    ensures
        r@ == digits_of(s@),
{
    let re = regex::Regex::new("[^0-9]").unwrap();
    re.replace_all(s, "").to_string()
}

/// Takes a `&str` and strips any non-digit.
/// This is used to unify and compare addon versions:
///
/// A string looking like 213r323 would return 213323.
/// A string looking like Rematch_4_10_15.zip would return 41015.
pub fn strip_non_digits(string: &str) -> (r: String)
    ensures
        r@ == digits_of(string@),
{
    remove_non_digit_chars(string)
}

/// A release of the application itself, as the self-update lookup returns
/// it from the hosting service's release listing.
#[derive(Debug)]
pub struct Release {
    pub tag_name: String,
    pub prerelease: bool,
    pub assets: Vec<ReleaseAsset>,
    pub body: String,
}

/// One downloadable file of a release.
#[derive(Debug)]
pub struct ReleaseAsset {
    pub name: String,
    pub download_url: String,
}

/// Two version strings name different versions: their digit sequences are
/// unequal, except that when either has no digits at all the comparison
/// falls back to raw string inequality.
pub open spec fn spec_versions_differ(a: Seq<char>, b: Seq<char>) -> bool {
    if digits_of(a).len() == 0 || digits_of(b).len() == 0 {
        a != b
    } else {
        digits_of(a) != digits_of(b)
    }
}

/// Decides whether two version strings name different versions under the
/// digit-strip comparison rule.
pub fn versions_differ(a: &str, b: &str) -> (r: bool)
    ensures
        r == spec_versions_differ(a@, b@),
{
    let da = strip_non_digits(a);
    let db = strip_non_digits(b);
    if da.as_str().is_empty() || db.as_str().is_empty() {
        !crate::strings::str_eq(a, b)
    } else {
        !(da == db)
    }
}

/// The version-difference rule is symmetric: whichever of the two strings is
/// taken as the installed version and whichever as the candidate release,
/// the comparison gives the same answer.
pub proof fn lemma_versions_differ_symmetric(a: Seq<char>, b: Seq<char>)
    ensures
        spec_versions_differ(a, b) == spec_versions_differ(b, a),
{
}

/// The character standing for the decimal digit `v`.
pub open spec fn digit_char_of(v: nat) -> char {
    if v == 0 {
        '0'
    } else if v == 1 {
        '1'
    } else if v == 2 {
        '2'
    } else if v == 3 {
        '3'
    } else if v == 4 {
        '4'
    } else if v == 5 {
        '5'
    } else if v == 6 {
        '6'
    } else if v == 7 {
        '7'
    } else if v == 8 {
        '8'
    } else {
        '9'
    }
}

/// The numeric value of an ASCII digit character.
pub open spec fn digit_value(c: char) -> nat {
    ((c as int) - ('0' as int)) as nat
}

/// The shortest decimal rendering of `v`, without leading zeroes.
pub open spec fn spec_decimal(v: nat) -> Seq<char>
    decreases v,
{
    if v < 10 {
        seq![digit_char_of(v)]
    } else {
        spec_decimal(v / 10).push(digit_char_of(v % 10))
    }
}

/// A well-formed interface number: exactly five ASCII digits.
pub open spec fn spec_interface_well_formed(s: Seq<char>) -> bool {
    s.len() == 5 && forall|i: int| 0 <= i < 5 ==> is_ascii_digit_char(#[trigger] s[i])
}

/// The game version that a well-formed five-digit interface number encodes:
/// one digit of major version, two of minor, two of patch, joined by dots
/// and rendered without leading zeroes.
pub open spec fn spec_game_version(s: Seq<char>) -> Seq<char> {
    spec_decimal(digit_value(s[0])) + seq!['.'] + spec_decimal(
        10 * digit_value(s[1]) + digit_value(s[2]),
    ) + seq!['.'] + spec_decimal(10 * digit_value(s[3]) + digit_value(s[4]))
}

/// A one-character string slice holding the digit `d`.
fn digit_str(d: u8) -> (r: &'static str)
    requires
        d < 10,
    ensures
        r@ == seq![digit_char_of(d as nat)],
{
    if d == 0 {
        proof {
            reveal_strlit("0");
            assert("0"@ =~= seq![digit_char_of(0)]);
        }
        "0"
    } else if d == 1 {
        proof {
            reveal_strlit("1");
            assert("1"@ =~= seq![digit_char_of(1)]);
        }
        "1"
    } else if d == 2 {
        proof {
            reveal_strlit("2");
            assert("2"@ =~= seq![digit_char_of(2)]);
        }
        "2"
    } else if d == 3 {
        proof {
            reveal_strlit("3");
            assert("3"@ =~= seq![digit_char_of(3)]);
        }
        "3"
    } else if d == 4 {
        proof {
            reveal_strlit("4");
            assert("4"@ =~= seq![digit_char_of(4)]);
        }
        "4"
    } else if d == 5 {
        proof {
            reveal_strlit("5");
            assert("5"@ =~= seq![digit_char_of(5)]);
        }
        "5"
    } else if d == 6 {
        proof {
            reveal_strlit("6");
            assert("6"@ =~= seq![digit_char_of(6)]);
        }
        "6"
    } else if d == 7 {
        proof {
            reveal_strlit("7");
            assert("7"@ =~= seq![digit_char_of(7)]);
        }
        "7"
    } else if d == 8 {
        proof {
            reveal_strlit("8");
            assert("8"@ =~= seq![digit_char_of(8)]);
        }
        "8"
    } else {
        proof {
            reveal_strlit("9");
            assert("9"@ =~= seq![digit_char_of(9)]);
        }
        "9"
    }
}

/// Decimal rendering of a value below 100.
fn small_decimal(v: u8) -> (r: String)
    requires
        v < 100,
    ensures
        r@ == spec_decimal(v as nat),
{
    if v < 10 {
        digit_str(v).to_owned()
    } else {
        let mut s = digit_str(v / 10).to_owned();
        s.append(digit_str(v % 10));
        proof {
            let n = v as nat;
            assert(n / 10 < 10);
            assert(spec_decimal(n) == spec_decimal(n / 10).push(digit_char_of(n % 10)));
            assert(spec_decimal(n / 10) == seq![digit_char_of(n / 10)]);
            assert(s@ =~= spec_decimal(n));
        }
        s
    }
}

/// The numeric value of an ASCII digit character.
fn digit_val(c: char) -> (r: u8)
    requires
        is_ascii_digit_char(c),
    ensures
        r as nat == digit_value(c),
{
    ((c as u32) - 48) as u8
}

/// Takes a `&str` and formats it into a proper
/// World of Warcraft release version.
///
/// Eg. 90001 would be 9.0.1.
pub fn format_interface_into_game_version(interface: &str) -> (r: String)
    ensures
        spec_interface_well_formed(interface@) ==> r@ == spec_game_version(interface@),
        !spec_interface_well_formed(interface@) ==> r@ == interface@,
{
    if interface.unicode_len() == 5 {
        let c0 = interface.get_char(0);
        let c1 = interface.get_char(1);
        let c2 = interface.get_char(2);
        let c3 = interface.get_char(3);
        let c4 = interface.get_char(4);
        if ('0' <= c0 && c0 <= '9') && ('0' <= c1 && c1 <= '9') && ('0' <= c2 && c2 <= '9') && ('0'
            <= c3 && c3 <= '9') && ('0' <= c4 && c4 <= '9') {
            let major = digit_val(c0);
            let minor = 10 * digit_val(c1) + digit_val(c2);
            let patch = 10 * digit_val(c3) + digit_val(c4);
            let mut s = small_decimal(major);
            s.append(".");
            s.append(small_decimal(minor).as_str());
            s.append(".");
            s.append(small_decimal(patch).as_str());
            proof {
                reveal_strlit(".");
                assert("."@ =~= seq!['.']);
                assert(s@ == spec_game_version(interface@));
            }
            s
        } else {
            interface.to_owned()
        }
    } else {
        interface.to_owned()
    }
}

/// Returns the first `max_chars` characters of `s`, or all of `s` when it is
/// no longer than that.
pub fn truncate(s: &str, max_chars: usize) -> (r: &str)
    ensures
        s@.len() <= max_chars ==> r@ == s@,
        s@.len() > max_chars ==> r@ == s@.subrange(0, max_chars as int),
{
    let n = s.unicode_len();
    if n <= max_chars {
        s
    } else {
        s.substring_char(0, max_chars)
    }
}

/// `c` separates path components.
pub open spec fn is_path_separator(c: char) -> bool {
    c == '/' || c == '\\'
}

/// `s` with every trailing separator removed.
pub open spec fn strip_trailing_separators(s: Seq<char>) -> Seq<char>
    decreases s.len(),
{
    if s.len() > 0 && is_path_separator(s.last()) {
        strip_trailing_separators(s.drop_last())
    } else {
        s
    }
}

/// The maximal separator-free suffix of `s`: the name of the deepest path
/// component when `s` does not end with a separator.
pub open spec fn last_component(s: Seq<char>) -> Seq<char>
    decreases s.len(),
{
    if s.len() > 0 && !is_path_separator(s.last()) {
        last_component(s.drop_last()).push(s.last())
    } else {
        Seq::empty()
    }
}

proof fn lemma_strip_trailing_separators_len(s: Seq<char>)
    ensures
        strip_trailing_separators(s).len() <= s.len(),
    decreases s.len(),
{
    if s.len() > 0 && is_path_separator(s.last()) {
        lemma_strip_trailing_separators_len(s.drop_last());
    }
}

proof fn lemma_strip_trailing_separators_ends(s: Seq<char>)
    ensures
        strip_trailing_separators(s).len() == 0 || !is_path_separator(
            strip_trailing_separators(s).last(),
        ),
    decreases s.len(),
{
    if s.len() > 0 && is_path_separator(s.last()) {
        lemma_strip_trailing_separators_ends(s.drop_last());
    }
}

proof fn lemma_last_component_len(s: Seq<char>)
    ensures
        last_component(s).len() <= s.len(),
    decreases s.len(),
{
    if s.len() > 0 && !is_path_separator(s.last()) {
        lemma_last_component_len(s.drop_last());
    }
}

/// The path above the deepest component of `s`, trailing separators removed.
pub open spec fn parent_path(s: Seq<char>) -> Seq<char> {
    strip_trailing_separators(s.take(s.len() - last_component(s).len()))
}

/// Where the ancestor walk of the root-directory resolver lands: the nearest
/// ancestor (the path itself included) whose deepest component is the folder
/// name of some flavor, with that component removed.  `None` when no
/// ancestor's name is a flavor folder.
pub open spec fn spec_path_resolution(s: Seq<char>) -> Option<Seq<char>>
    decreases s.len(),
    via spec_path_resolution_decreases
{
    if strip_trailing_separators(s).len() == 0 {
        None
    } else if known_folder_name(last_component(strip_trailing_separators(s))) {
        Some(parent_path(strip_trailing_separators(s)))
    } else {
        spec_path_resolution(parent_path(strip_trailing_separators(s)))
    }
}

#[via_fn]
proof fn spec_path_resolution_decreases(s: Seq<char>) {
    let t = strip_trailing_separators(s);
    lemma_strip_trailing_separators_len(s);
    if t.len() > 0 {
        lemma_strip_trailing_separators_ends(s);
        lemma_last_component_len(t);
        assert(last_component(t).len() >= 1);
        lemma_strip_trailing_separators_len(t.take(t.len() - last_component(t).len()));
    }
}

/// Stripping trailing separators changes nothing about the resolution.
proof fn lemma_resolution_of_strip(s: Seq<char>)
    ensures
        spec_path_resolution(strip_trailing_separators(s)) == spec_path_resolution(s),
{
    lemma_strip_trailing_separators_ends(s);
    let t = strip_trailing_separators(s);
    assert(strip_trailing_separators(t) == t);
}

/// Logic to help pick the right World of Warcraft folder: walk the chosen
/// path's ancestors, and when one of them is named like a flavor's folder,
/// its parent is the game's root directory.
pub fn wow_path_resolution(path: Option<String>) -> (r: Option<String>)
    ensures
        match path {
            Option::None => r is None,
            Option::Some(p) => match spec_path_resolution(p@) {
                Option::Some(v) => r matches Option::Some(q) && q@ == v,
                Option::None => r is None,
            },
        },
{
    match path {
        Option::None => Option::None,
        Option::Some(p) => {
            let s = p.as_str();
            let n = s.unicode_len();
            proof {
                assert(p@.take(n as int) =~= p@);
            }
            resolve_path_prefix(s, n)
        },
    }
}

/// Whether the character at index `i` of `s` is a path separator.
fn sep_at(s: &str, i: usize) -> (r: bool)
    requires
        i < s@.len(),
    ensures
        r == is_path_separator(s@[i as int]),
{
    let c = s.get_char(i);
    c == '/' || c == '\\'
}

/// Resolves the prefix `s[..end]` as `wow_path_resolution` does the whole
/// string.
fn resolve_path_prefix(s: &str, end: usize) -> (r: Option<String>)
    requires
        end <= s@.len(),
    ensures
        match spec_path_resolution(s@.take(end as int)) {
            Option::Some(v) => r matches Option::Some(q) && q@ == v,
            Option::None => r is None,
        },
    decreases end,
{
    let ghost whole = s@.take(end as int);
    // Drop trailing separators: afterwards s[..e] is the stripped prefix.
    let mut e = end;
    while e > 0 && sep_at(s, e - 1)
        invariant
            e <= end <= s@.len(),
            strip_trailing_separators(s@.take(end as int)) == strip_trailing_separators(
                s@.take(e as int),
            ),
        decreases e,
    {
        proof {
            assert(s@.take(e as int).last() == s@[e - 1]);
            assert(s@.take(e as int).drop_last() =~= s@.take(e - 1));
        }
        e = e - 1;
    }
    let ghost t = strip_trailing_separators(whole);
    proof {
        if e > 0 {
            assert(!is_path_separator(s@.take(e as int).last()));
        }
        assert(t == s@.take(e as int));
    }
    if e == 0 {
        proof {
            assert(s@.take(0) =~= Seq::<char>::empty());
            assert(t.len() == 0);
        }
        return Option::None;
    }
    // Scan the deepest component: afterwards it is s[start..e].
    let mut start = e;
    while start > 0 && !sep_at(s, start - 1)
        invariant
            start <= e <= s@.len(),
            e > 0,
            last_component(s@.take(e as int)) =~= last_component(s@.take(start as int)) + s@
                .subrange(start as int, e as int),
        decreases start,
    {
        proof {
            assert(s@.take(start as int).last() == s@[start - 1]);
            assert(s@.take(start as int).drop_last() =~= s@.take(start - 1));
            assert(last_component(s@.take(start as int)) == last_component(
                s@.take(start - 1),
            ).push(s@[start - 1]));
            assert(last_component(s@.take(start - 1)) + s@.subrange(start - 1, e as int)
                =~= last_component(s@.take(start - 1)).push(s@[start - 1]) + s@.subrange(
                start as int,
                e as int,
            ));
        }
        start = start - 1;
    }
    proof {
        if start > 0 {
            assert(is_path_separator(s@.take(start as int).last()));
            assert(last_component(s@.take(start as int)) =~= Seq::<char>::empty());
        } else {
            assert(s@.take(0) =~= Seq::<char>::empty());
            assert(last_component(s@.take(0)) =~= Seq::<char>::empty());
        }
        assert(last_component(t) =~= s@.subrange(start as int, e as int));
    }
    let component = s.substring_char(start, e);
    if crate::config::is_known_folder_name(component) {
        // The parent is the prefix above the component, trailing separators
        // removed.
        proof {
            assert(t.take(t.len() - last_component(t).len()) =~= s@.take(start as int));
        }
        let mut pe = start;
        while pe > 0 && sep_at(s, pe - 1)
            invariant
                pe <= start <= s@.len(),
                strip_trailing_separators(s@.take(start as int)) == strip_trailing_separators(
                    s@.take(pe as int),
                ),
            decreases pe,
        {
            proof {
                assert(s@.take(pe as int).last() == s@[pe - 1]);
                assert(s@.take(pe as int).drop_last() =~= s@.take(pe - 1));
            }
            pe = pe - 1;
        }
        proof {
            if pe > 0 {
                assert(!is_path_separator(s@.take(pe as int).last()));
            } else {
                assert(s@.take(0) =~= Seq::<char>::empty());
            }
            assert(parent_path(t) == s@.take(pe as int));
        }
        let parent = s.substring_char(0, pe);
        proof {
            assert(s@.subrange(0, pe as int) =~= s@.take(pe as int));
        }
        Option::Some(parent.to_owned())
    } else {
        // No match at this depth: continue with the parent, which resolves
        // exactly like the prefix s[..start].
        proof {
            assert(t.take(t.len() - last_component(t).len()) =~= s@.take(start as int));
            lemma_resolution_of_strip(s@.take(start as int));
            assert(spec_path_resolution(whole) == spec_path_resolution(s@.take(start as int)));
        }
        resolve_path_prefix(s, start)
    }
}

} // verus!
