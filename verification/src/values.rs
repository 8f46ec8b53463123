//! Parsers for the textual values that some commands take.

use vstd::prelude::*;

verus! {

/// `c` is `k` once ASCII upper-case letters are folded to lower case.
/// (`k` is meant to be a lower-case ASCII letter.)
pub open spec fn folds_to(c: char, k: char) -> bool {
    c == k || ('A' <= c && c <= 'Z' && (c as int) + 32 == (k as int))
}

/// `s` spells the lower-case keyword `kw` in any mix of letter cases.
pub open spec fn spells(s: Seq<char>, kw: Seq<char>) -> bool {
    &&& s.len() == kw.len()
    &&& forall|i: int| 0 <= i < s.len() ==> folds_to(#[trigger] s[i], kw[i])
}

/// Whether `s` spells the lower-case ASCII keyword `kw`, letter case aside.
/// For keywords made of the letters used here this is the same as asking
/// whether `s` lowercases to `kw`.
pub fn spells_keyword(s: &str, kw: &str) -> (r: bool)
    ensures
        r == spells(s@, kw@),
{
    let n = s.unicode_len();
    let m = kw.unicode_len();
    if n != m {
        return false;
    }
    let mut i: usize = 0;
    while i < n
        invariant
            n == s@.len(),
            m == kw@.len(),
            n == m,
            i <= n,
            forall|j: int| 0 <= j < i ==> folds_to(#[trigger] s@[j], kw@[j]),
        decreases n - i,
    {
        let c = s.get_char(i);
        let k = kw.get_char(i);
        let same = c == k || ('A' <= c && c <= 'Z' && (c as u32) + 32 == (k as u32));
        if !same {
            assert(!folds_to(s@[i as int], kw@[i as int]));
            return false;
        }
        i = i + 1;
    }
    true
}


/// A `Result` with its error text taken by its view.
pub open spec fn text_result<T>(r: Result<T, String>) -> Result<T, Seq<char>> {
    match r {
        Ok(v) => Ok(v),
        Err(e) => Err(e@),
    }
}

/// The message that rejects `s` as a boolean.
pub open spec fn bool_error(s: Seq<char>) -> Seq<char> {
    "Invalid boolean value: "@ + s + ". Valid values are: true, false, on, off"@
}

/// What a boolean argument means: `true` or `on` is true, `false` or `off`
/// is false, letter case aside; anything else is refused.
pub open spec fn bool_value(s: Seq<char>) -> Result<bool, Seq<char>> {
    if spells(s, "true"@) || spells(s, "on"@) {
        Ok(true)
    } else if spells(s, "false"@) || spells(s, "off"@) {
        Ok(false)
    } else {
        Err(bool_error(s))
    }
}

/// Parses a boolean argument (`true`, `false`, `on` or `off`, in any letter
/// case).
pub fn parse_bool(s: &str) -> (r: Result<bool, String>)
    ensures
        text_result(r) == bool_value(s@),
        r == Ok::<bool, String>(true) <==> spells(s@, "true"@) || spells(s@, "on"@),
        r == Ok::<bool, String>(false) <==> spells(s@, "false"@) || spells(s@, "off"@),
        r is Err <==> !(spells(s@, "true"@) || spells(s@, "on"@) || spells(s@, "false"@) || spells(
            s@,
            "off"@,
        )),
{
    proof {
        lemma_bool_accepts_exactly_its_keywords(s@);
    }
    if spells_keyword(s, "true") || spells_keyword(s, "on") {
        Ok(true)
    } else if spells_keyword(s, "false") || spells_keyword(s, "off") {
        Ok(false)
    } else {
        let msg = String::from_str("Invalid boolean value: ").concat(s).concat(
            ". Valid values are: true, false, on, off",
        );
        Err(msg)
    }
}

/// The message that rejects `s` as a DC restore state.
pub open spec fn dc_restore_error(s: Seq<char>) -> Seq<char> {
    "Invalid DC restore state: "@ + s + ". Valid values are: off, on, laststate"@
}

/// The code of a DC restore state: `off` is 0, `on` is 1, `laststate` is 2,
/// letter case aside; anything else is refused.
pub open spec fn dc_restore_value(s: Seq<char>) -> Result<u64, Seq<char>> {
    if spells(s, "off"@) {
        Ok(0)
    } else if spells(s, "on"@) {
        Ok(1)
    } else if spells(s, "laststate"@) {
        Ok(2)
    } else {
        Err(dc_restore_error(s))
    }
}

/// Parses a DC restore state (`off`, `on` or `laststate`, in any letter case)
/// into the code that the device expects.
pub fn parse_dc_restore_state(s: &str) -> (r: Result<u64, String>)
    ensures
        text_result(r) == dc_restore_value(s@),
        r == Ok::<u64, String>(0) <==> spells(s@, "off"@),
        r == Ok::<u64, String>(1) <==> spells(s@, "on"@),
        r == Ok::<u64, String>(2) <==> spells(s@, "laststate"@),
        r is Err <==> !(spells(s@, "off"@) || spells(s@, "on"@) || spells(s@, "laststate"@)),
{
    proof {
        lemma_dc_restore_accepts_exactly_its_keywords(s@);
    }
    if spells_keyword(s, "off") {
        Ok(0)
    } else if spells_keyword(s, "on") {
        Ok(1)
    } else if spells_keyword(s, "laststate") {
        Ok(2)
    } else {
        let msg = String::from_str("Invalid DC restore state: ").concat(s).concat(
            ". Valid values are: off, on, laststate",
        );
        Err(msg)
    }
}


/// `c` and `d` are the same character, or the two cases of one ASCII letter.
pub open spec fn case_variant(c: char, d: char) -> bool {
    ||| c == d
    ||| 'A' <= c && c <= 'Z' && (c as int) + 32 == (d as int)
    ||| 'A' <= d && d <= 'Z' && (d as int) + 32 == (c as int)
}

/// `s` and `t` differ at most in the letter case of ASCII letters.
pub open spec fn same_ignoring_case(s: Seq<char>, t: Seq<char>) -> bool {
    &&& s.len() == t.len()
    &&& forall|i: int| 0 <= i < s.len() ==> case_variant(#[trigger] s[i], t[i])
}

/// `kw` is made of lower-case ASCII letters only.
pub open spec fn lower_ascii_word(kw: Seq<char>) -> bool {
    forall|i: int| 0 <= i < kw.len() ==> 'a' <= #[trigger] kw[i] && kw[i] <= 'z'
}

/// Two spellings that differ only in letter case spell the same keywords.
pub proof fn lemma_spells_ignores_case(s: Seq<char>, t: Seq<char>, kw: Seq<char>)
    requires
        same_ignoring_case(s, t),
        lower_ascii_word(kw),
    ensures
        spells(s, kw) == spells(t, kw),
{
    if spells(s, kw) {
        assert forall|i: int| 0 <= i < t.len() implies folds_to(#[trigger] t[i], kw[i]) by {
            assert(case_variant(s[i], t[i]));
            assert(folds_to(s[i], kw[i]));
            assert('a' <= kw[i] && kw[i] <= 'z');
        }
    }
    if spells(t, kw) {
        assert forall|i: int| 0 <= i < s.len() implies folds_to(#[trigger] s[i], kw[i]) by {
            assert(case_variant(s[i], t[i]));
            assert(folds_to(t[i], kw[i]));
            assert('a' <= kw[i] && kw[i] <= 'z');
        }
    }
}

proof fn lemma_keywords_are_lower_ascii()
    ensures
        lower_ascii_word("true"@),
        lower_ascii_word("false"@),
        lower_ascii_word("on"@),
        lower_ascii_word("off"@),
        lower_ascii_word("laststate"@),
        "true"@.len() == 4,
        "false"@.len() == 5,
        "on"@.len() == 2,
        "off"@.len() == 3,
        "laststate"@.len() == 9,
{
    reveal_strlit("true");
    reveal_strlit("false");
    reveal_strlit("on");
    reveal_strlit("off");
    reveal_strlit("laststate");
}

/// Letter case does not matter to the boolean and DC restore parsers: two
/// arguments that differ only in the case of ASCII letters are both accepted,
/// with the same value, or both refused.
pub proof fn lemma_parsers_ignore_case(s: Seq<char>, t: Seq<char>)
    requires
        same_ignoring_case(s, t),
    ensures
        bool_value(s) is Ok <==> bool_value(t) is Ok,
        bool_value(s) is Ok ==> bool_value(s) == bool_value(t),
        dc_restore_value(s) is Ok <==> dc_restore_value(t) is Ok,
        dc_restore_value(s) is Ok ==> dc_restore_value(s) == dc_restore_value(t),
{
    lemma_keywords_are_lower_ascii();
    lemma_spells_ignores_case(s, t, "true"@);
    lemma_spells_ignores_case(s, t, "false"@);
    lemma_spells_ignores_case(s, t, "on"@);
    lemma_spells_ignores_case(s, t, "off"@);
    lemma_spells_ignores_case(s, t, "laststate"@);
}

/// Where both parsers accept an argument (that is, for `on` and `off`), they
/// agree: DC restore state 1 is exactly the boolean true, and 0 the boolean
/// false.
pub proof fn lemma_on_off_agree(s: Seq<char>)
    requires
        bool_value(s) is Ok,
        dc_restore_value(s) is Ok,
    ensures
        dc_restore_value(s) == Ok::<u64, Seq<char>>(1) <==> bool_value(s) == Ok::<bool, Seq<char>>(true),
        dc_restore_value(s) == Ok::<u64, Seq<char>>(0) <==> bool_value(s) == Ok::<bool, Seq<char>>(false),
{
    lemma_keywords_are_lower_ascii();
}


/// A boolean argument is accepted exactly when it is one of the words
/// `true`, `on`, `false`, `off`, letter case aside: the first two and only
/// they give true, the last two and only they give false, and every other
/// argument is refused.
pub proof fn lemma_bool_accepts_exactly_its_keywords(s: Seq<char>)
    ensures
        bool_value(s) == Ok::<bool, Seq<char>>(true) <==> spells(s, "true"@) || spells(s, "on"@),
        bool_value(s) == Ok::<bool, Seq<char>>(false) <==> spells(s, "false"@) || spells(s, "off"@),
        bool_value(s) is Err <==> !(spells(s, "true"@) || spells(s, "on"@) || spells(s, "false"@)
            || spells(s, "off"@)),
{
    lemma_keywords_are_lower_ascii();
}

/// A DC restore state is accepted exactly when it is one of the words `off`,
/// `on`, `laststate`, letter case aside, with the codes 0, 1 and 2 in that
/// order: each code comes from its own word and no other, and every other
/// argument is refused.
pub proof fn lemma_dc_restore_accepts_exactly_its_keywords(s: Seq<char>)
    ensures
        dc_restore_value(s) == Ok::<u64, Seq<char>>(0) <==> spells(s, "off"@),
        dc_restore_value(s) == Ok::<u64, Seq<char>>(1) <==> spells(s, "on"@),
        dc_restore_value(s) == Ok::<u64, Seq<char>>(2) <==> spells(s, "laststate"@),
        dc_restore_value(s) is Err <==> !(spells(s, "off"@) || spells(s, "on"@) || spells(
            s,
            "laststate"@,
        )),
{
    lemma_keywords_are_lower_ascii();
}


/// A word written in lower-case ASCII letters spells a lower-case keyword
/// exactly when it is that keyword: folding the case never turns one such
/// word into another (`no` is not `on`, `of` is not `off`).
pub proof fn lemma_lower_word_spells_only_itself(s: Seq<char>, kw: Seq<char>)
    requires
        lower_ascii_word(s),
        lower_ascii_word(kw),
    ensures
        spells(s, kw) <==> s == kw,
{
    if spells(s, kw) {
        assert forall|i: int| 0 <= i < s.len() implies s[i] == kw[i] by {
            assert(folds_to(s[i], kw[i]));
            assert('a' <= s[i]);
        }
        assert(s =~= kw);
    }
}

} // verus!
