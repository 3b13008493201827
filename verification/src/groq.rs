//! The personal dictionary and the transcription requests built from it:
//! rewriting recognised text, validating rules, and the vocabulary hint.
use vstd::prelude::*;
use crate::storage::{Rule, Settings};
use crate::text::{decimal, decimal_chars, str_eq, append_chars, byte_len, byte_len_exceeds, chars_eq, chars_of, slice_chars, string_of, trim, trim_chars};

verus! {

// ---------------------------------------------------------------------------
// A stable order of rules by descending key
// ---------------------------------------------------------------------------

/// The first position in `order` whose key is smaller than `k`
/// (where an element with key `k` goes to keep `order` stably sorted).
pub open spec fn first_smaller(order: Seq<usize>, keys: Seq<usize>, k: usize) -> int
    decreases order.len(),
{
    if order.len() == 0 {
        0
    } else if keys[order[0] as int] < k {
        0
    } else {
        1 + first_smaller(order.drop_first(), keys, k)
    }
}

/// The indices `i < n` with `keep[i]`, stably sorted by descending
/// `keys[i]`: a larger key comes first, equal keys keep their order.
pub open spec fn stable_desc(keys: Seq<usize>, keep: Seq<bool>, n: nat) -> Seq<usize>
    decreases n,
{
    if n == 0 {
        Seq::empty()
    } else {
        let o = stable_desc(keys, keep, (n - 1) as nat);
        if keep[n - 1] {
            o.insert(first_smaller(o, keys, keys[n - 1]), (n - 1) as usize)
        } else {
            o
        }
    }
}

pub proof fn lemma_first_smaller_bounds(order: Seq<usize>, keys: Seq<usize>, k: usize)
    ensures
        0 <= first_smaller(order, keys, k) <= order.len(),
    decreases order.len(),
{
    if order.len() > 0 && keys[order[0] as int] >= k {
        lemma_first_smaller_bounds(order.drop_first(), keys, k);
    }
}

proof fn lemma_stable_desc_indices(keys: Seq<usize>, keep: Seq<bool>, n: nat)
    ensures
        forall|p: int|
            0 <= p < stable_desc(keys, keep, n).len() ==> #[trigger] stable_desc(
                keys,
                keep,
                n,
            )[p] < n,
        stable_desc(keys, keep, n).len() <= n,
    decreases n,
{
    if n > 0 {
        lemma_stable_desc_indices(keys, keep, (n - 1) as nat);
        let o = stable_desc(keys, keep, (n - 1) as nat);
        if keep[n - 1] {
            let q = first_smaller(o, keys, keys[n - 1]);
            lemma_first_smaller_bounds(o, keys, keys[n - 1]);
            o.insert_ensures(q, (n - 1) as usize);
            assert forall|p: int| 0 <= p < o.insert(q, (n - 1) as usize).len() implies #[trigger] o.insert(
                q,
                (n - 1) as usize,
            )[p] < n by {
                if p < q {
                } else if p == q {
                } else {
                    assert(o.insert(q, (n - 1) as usize)[p] == o[p - 1]);
                }
            }
        }
    }
}

/// Where an element with key `k` goes in `order`.
fn insertion_point(order: &Vec<usize>, keys: &Vec<usize>, k: usize) -> (p: usize)
    requires
        forall|i: int| 0 <= i < order.len() ==> #[trigger] order@[i] < keys.len(),
    ensures
        p as int == first_smaller(order@, keys@, k),
        p <= order.len(),
{
    let mut p: usize = 0;
    assert(order@.subrange(0, order.len() as int) == order@);
    while p < order.len() && keys[order[p]] >= k
        invariant
            p <= order.len(),
            forall|i: int| 0 <= i < order.len() ==> #[trigger] order@[i] < keys.len(),
            first_smaller(order@, keys@, k) == p + first_smaller(
                order@.subrange(p as int, order.len() as int),
                keys@,
                k,
            ),
        decreases order.len() - p,
    {
        let ghost rest = order@.subrange(p as int, order.len() as int);
        assert(rest.drop_first() == order@.subrange(p + 1, order.len() as int));
        assert(rest[0] == order@[p as int]);
        p += 1;
    }
    proof {
        let rest = order@.subrange(p as int, order.len() as int);
        if p < order.len() {
            assert(rest[0] == order@[p as int]);
        }
    }
    p
}

/// The indices of the included entries, stably sorted by descending key.
pub fn stable_desc_order(keys: &Vec<usize>, keep: &Vec<bool>) -> (o: Vec<usize>)
    requires
        keys.len() == keep.len(),
    ensures
        o@ == stable_desc(keys@, keep@, keys.len() as nat),
{
    let mut o: Vec<usize> = Vec::new();
    let mut n: usize = 0;
    while n < keys.len()
        invariant
            n <= keys.len() == keep.len(),
            o@ == stable_desc(keys@, keep@, n as nat),
        decreases keys.len() - n,
    {
        proof {
            lemma_stable_desc_indices(keys@, keep@, n as nat);
        }
        if keep[n] {
            let p = insertion_point(&o, keys, keys[n]);
            o.insert(p, n);
        }
        n += 1;
    }
    o
}

// ---------------------------------------------------------------------------
// Matching, through the `regex` crate
// ---------------------------------------------------------------------------

/// The non-overlapping, leftmost matches of `needle` in `haystack`, compared
/// without regard to case, as character positions `(start, end)`; `None`
/// when no regular expression can be built from the escaped literal.
pub uninterp spec fn literal_matches(haystack: Seq<char>, needle: Seq<char>) -> Option<
    Seq<(usize, usize)>,
>;

/// Whether `\w` of the `regex` crate (a Unicode word character) matches `c`.
pub uninterp spec fn regex_word_char(c: char) -> bool;

/// Match positions lie in the text and come in increasing order without
/// overlap.
pub open spec fn spans_ordered(len: int, ms: Seq<(usize, usize)>) -> bool {
    &&& forall|i: int| 0 <= i < ms.len() ==> #[trigger] ms[i].0 <= ms[i].1 <= len
    &&& forall|i: int, j: int| 0 <= i < j < ms.len() ==> #[trigger] ms[i].1 <= #[trigger] ms[j].0
}

/// `needle` stands at position `i` of `haystack`, ignoring ASCII case.
pub open spec fn occurs_at(haystack: Seq<char>, needle: Seq<char>, i: int) -> bool {
    &&& 0 <= i
    &&& i + needle.len() <= haystack.len()
    &&& forall|j: int| 0 <= j < needle.len() ==> ascii_lower(#[trigger] haystack[i + j]) == ascii_lower(needle[j])
}

/// The occurrences of a non-empty `needle` in `haystack` from position `i`
/// on, found left to right, each search going on after the previous
/// occurrence, as character positions `(start, end)`.
pub open spec fn occurrences_from(haystack: Seq<char>, needle: Seq<char>, i: int) -> Seq<(usize, usize)>
    decreases haystack.len() - i,
{
    if needle.len() == 0 || i < 0 || i + needle.len() > haystack.len() {
        Seq::empty()
    } else if occurs_at(haystack, needle, i) {
        seq![(i as usize, (i + needle.len()) as usize)] + occurrences_from(
            haystack,
            needle,
            i + needle.len(),
        )
    } else {
        occurrences_from(haystack, needle, i + 1)
    }
}

/// Text and needle on which the matches are stated exactly: both ASCII, the
/// needle not empty.
pub open spec fn plain_search(haystack: Seq<char>, needle: Seq<char>) -> bool {
    is_ascii_text(haystack) && is_ascii_text(needle) && needle.len() > 0
}

/// `regex::RegexBuilder` on `regex::escape(needle)` with case-insensitive
/// matching, then `Regex::find_iter` on `haystack`. Claimed: the result is
/// `literal_matches` of the two arguments, and the matches, which the crate
/// documents as successive and non-overlapping, lie inside `haystack` in
/// increasing order. On ASCII text with a non-empty ASCII needle, where
/// byte and character positions agree and the crate's case folding of an
/// ASCII letter meets no other character, the leftmost-first search of a
/// literal finds exactly `occurrences_from` position 0. Whether the pattern
/// builds within the crate's size limit is left to `literal_matches`. Byte
/// offsets are turned into character positions.
#[verifier::external_body]
fn find_literal(haystack: &str, needle: &str) -> (r: Option<Vec<(usize, usize)>>)
    ensures
        r is Some <==> literal_matches(haystack@, needle@) is Some,
        r matches Some(v) ==> v@ == literal_matches(haystack@, needle@)->0,
        r matches Some(v) ==> spans_ordered(haystack@.len() as int, v@),
        r matches Some(v) ==> (plain_search(haystack@, needle@) ==> v@ == occurrences_from(
            haystack@,
            needle@,
            0,
        )),
{
    let pattern = regex::RegexBuilder::new(&regex::escape(needle)).case_insensitive(true).build().ok()?;
    Some(
        pattern.find_iter(haystack).map(
            |m| (haystack[..m.start()].chars().count(), haystack[..m.end()].chars().count()),
        ).collect(),
    )
}

/// `regex::Regex::new(r"^\w$")` and `is_match` on the one-character string
/// `c`. Claimed: the result is `regex_word_char(c)`, and, as the crate's
/// documentation of `\w` shows, an ASCII character is a word character
/// exactly when it is a letter, a digit or `_`.
#[verifier::external_body]
fn is_word_char(c: char) -> (r: bool)
    ensures
        r == regex_word_char(c),
        (c as u32) < 128 ==> (r <==> ('a' <= c <= 'z' || 'A' <= c <= 'Z' || '0' <= c <= '9' || c
            == '_')),
{
    regex::Regex::new(r"^\w$").unwrap().is_match(&c.to_string())
}

// ---------------------------------------------------------------------------
// Applying the dictionary
// ---------------------------------------------------------------------------

/// A word character (`\w` of the `regex` crate): for an ASCII character, a
/// letter, a digit or `_`; for any other, `regex_word_char`.
pub open spec fn word_char(c: char) -> bool {
    if (c as u32) < 128 {
        ('a' <= c <= 'z') || ('A' <= c <= 'Z') || ('0' <= c <= '9') || c == '_'
    } else {
        regex_word_char(c)
    }
}

/// A match is kept as it is when a word character touches it on either side.
pub open spec fn touches_word(text: Seq<char>, s: int, e: int) -> bool {
    (s > 0 && word_char(text[s - 1])) || (e < text.len() && word_char(text[e]))
}

/// The output built from the first `k` matches, and the position up to which
/// `text` has been consumed.
pub open spec fn splice_prefix(
    text: Seq<char>,
    ms: Seq<(usize, usize)>,
    target: Seq<char>,
    k: nat,
) -> (Seq<char>, int)
    decreases k,
{
    if k == 0 {
        (Seq::empty(), 0)
    } else {
        let (out, prev) = splice_prefix(text, ms, target, (k - 1) as nat);
        let s = ms[k - 1].0 as int;
        let e = ms[k - 1].1 as int;
        if touches_word(text, s, e) {
            (out, prev)
        } else {
            (out + text.subrange(prev, s) + target, e)
        }
    }
}

/// `text` with every match that no word character touches replaced by
/// `target`, taken literally.
pub open spec fn splice(text: Seq<char>, ms: Seq<(usize, usize)>, target: Seq<char>) -> Seq<char> {
    let (out, prev) = splice_prefix(text, ms, target, ms.len());
    out + text.subrange(prev, text.len() as int)
}

/// Where the source is found in `text`: on ASCII text with an ASCII source,
/// its occurrences in any letter case, left to right; otherwise the matches
/// that the `regex` crate reports.
pub open spec fn found(text: Seq<char>, source: Seq<char>, ms: Seq<(usize, usize)>) -> Seq<
    (usize, usize),
> {
    if plain_search(text, source) {
        occurrences_from(text, source, 0)
    } else {
        ms
    }
}

/// One rule applied to `text`.
pub open spec fn apply_rule(text: Seq<char>, source: Seq<char>, target: Seq<char>) -> Seq<char> {
    match literal_matches(text, source) {
        Some(ms) => splice(text, found(text, source, ms), target),
        None => text,
    }
}

/// A rule takes part in corrections when it is enabled and its source is not
/// blank.
pub open spec fn correction_active(r: Rule) -> bool {
    r.enabled && trim(r.source@).len() > 0
}

/// Active rules, longest source (in characters) first.
pub open spec fn correction_order(rules: Seq<Rule>) -> Seq<usize> {
    stable_desc(
        Seq::new(rules.len(), |i: int| rules[i].source@.len() as usize),
        Seq::new(rules.len(), |i: int| correction_active(rules[i])),
        rules.len(),
    )
}

/// `text` after the first `k` rules of `order`.
pub open spec fn apply_in_order(text: Seq<char>, rules: Seq<Rule>, order: Seq<usize>, k: nat) -> Seq<
    char,
>
    decreases k,
{
    if k == 0 {
        text
    } else {
        let r = rules[order[k - 1] as int];
        apply_rule(apply_in_order(text, rules, order, (k - 1) as nat), r.source@, r.target@)
    }
}

/// The dictionary applied to `text`: each active rule in turn, longest
/// source first.
pub open spec fn corrected(text: Seq<char>, rules: Seq<Rule>) -> Seq<char> {
    let o = correction_order(rules);
    apply_in_order(text, rules, o, o.len())
}

fn splice_matches(text: &Vec<char>, ms: &Vec<(usize, usize)>, target: &Vec<char>) -> (r: Vec<char>)
    requires
        spans_ordered(text.len() as int, ms@),
    ensures
        r@ == splice(text@, ms@, target@),
{
    let mut out: Vec<char> = Vec::new();
    let mut prev: usize = 0;
    let mut i: usize = 0;
    while i < ms.len()
        invariant
            i <= ms.len(),
            spans_ordered(text.len() as int, ms@),
            (out@, prev as int) == splice_prefix(text@, ms@, target@, i as nat),
            prev <= text.len(),
            i > 0 ==> prev <= ms@[i - 1].1,
        decreases ms.len() - i,
    {
        let (s, e) = ms[i];
        if i > 0 {
            assert(ms@[i - 1].1 <= ms@[i as int].0);
        }
        let left = s > 0 && is_word_char(text[s - 1]);
        let right = e < text.len() && is_word_char(text[e]);
        if !(left || right) {
            append_chars(&mut out, text.as_slice(), prev, s);
            append_chars(&mut out, target.as_slice(), 0, target.len());
            assert(target@.subrange(0, target.len() as int) == target@);
            prev = e;
        }
        i += 1;
    }
    append_chars(&mut out, text.as_slice(), prev, text.len());
    out
}

fn apply_rule_exec(text: &Vec<char>, source: &str, target: &str) -> (r: Vec<char>)
    ensures
        r@ == apply_rule(text@, source@, target@),
{
    let hay = string_of(text.as_slice());
    match find_literal(hay.as_str(), source) {
        Some(ms) => {
            let t = chars_of(target);
            splice_matches(text, &ms, &t)
        },
        None => slice_chars(text.as_slice(), 0, text.len()),
    }
}

fn correction_order_exec(rules: &[Rule]) -> (o: Vec<usize>)
    ensures
        o@ == correction_order(rules@),
        forall|i: int| 0 <= i < o.len() ==> #[trigger] o@[i] < rules.len(),
{
    let mut keys: Vec<usize> = Vec::new();
    let mut keep: Vec<bool> = Vec::new();
    let mut i: usize = 0;
    while i < rules.len()
        invariant
            i <= rules.len(),
            keys.len() == i,
            keep.len() == i,
            forall|j: int| 0 <= j < i ==> #[trigger] keys@[j] == rules@[j].source@.len() as usize,
            forall|j: int| 0 <= j < i ==> #[trigger] keep@[j] == correction_active(rules@[j]),
        decreases rules.len() - i,
    {
        let src = chars_of(rules[i].source.as_str());
        let trimmed = trim_chars(src.as_slice());
        keys.push(src.len());
        keep.push(rules[i].enabled && trimmed.len() > 0);
        i += 1;
    }
    assert(keys@ == Seq::new(rules@.len(), |i: int| rules@[i].source@.len() as usize));
    assert(keep@ == Seq::new(rules@.len(), |i: int| correction_active(rules@[i])));
    let o = stable_desc_order(&keys, &keep);
    proof {
        lemma_stable_desc_indices(keys@, keep@, keys.len() as nat);
    }
    o
}

/// The dictionary applied to recognised text: each enabled rule with a
/// non-blank source, longest source first, replaces the occurrences of its
/// source (in any letter case) that no word character touches by its target,
/// taken literally.
pub fn corrections(text: &str, rules: &[Rule]) -> (out: String)
    ensures
        out@ == corrected(text@, rules@),
{
    let order = correction_order_exec(rules);
    let mut output = chars_of(text);
    let mut k: usize = 0;
    while k < order.len()
        invariant
            k <= order.len(),
            order@ == correction_order(rules@),
            forall|i: int| 0 <= i < order.len() ==> #[trigger] order@[i] < rules.len(),
            output@ == apply_in_order(text@, rules@, order@, k as nat),
        decreases order.len() - k,
    {
        let r = &rules[order[k]];
        output = apply_rule_exec(&output, r.source.as_str(), r.target.as_str());
        k += 1;
    }
    string_of(output.as_slice())
}


// ---------------------------------------------------------------------------
// Validating a dictionary
// ---------------------------------------------------------------------------

/// The lowercase form of `s`, as `str::to_lowercase` gives it.
pub uninterp spec fn lowercase(s: Seq<char>) -> Seq<char>;

/// A text of ASCII characters only.
pub open spec fn is_ascii_text(s: Seq<char>) -> bool {
    forall|i: int| 0 <= i < s.len() ==> (#[trigger] s[i] as u32) < 128
}

/// The lowercase of an ASCII character: `A`..=`Z` become `a`..=`z`, every
/// other character stays.
pub open spec fn ascii_lower(c: char) -> char {
    if 'A' <= c <= 'Z' {
        ((c as u32) + 32) as char
    } else {
        c
    }
}

/// The lowercase of a text, as `str::to_lowercase` gives it: letter by
/// letter for an ASCII text, `lowercase` for any other.
pub open spec fn lower(s: Seq<char>) -> Seq<char> {
    if is_ascii_text(s) {
        s.map_values(|c: char| ascii_lower(c))
    } else {
        lowercase(s)
    }
}

/// `str::to_lowercase`. Claimed: the result is `lowercase` of the argument
/// (a function of the characters alone; the Unicode case mapping in general
/// is not stated), and of an ASCII text it is the ASCII lowercase, character
/// by character, as the Unicode mapping that std documents gives for ASCII.
#[verifier::external_body]
fn to_lower(s: &str) -> (r: String)
    ensures
        r@ == lowercase(s@),
        is_ascii_text(s@) ==> r@ == s@.map_values(|c: char| ascii_lower(c)),
{
    s.to_lowercase()
}

/// Why a dictionary is refused.
#[derive(Clone, Copy, Debug, PartialEq, Eq)]
pub enum RuleProblem {
    TooMany,
    EmptyOrTooLong,
    NoChange,
    Duplicate,
}

/// The message shown for each refusal.
pub open spec fn rule_problem_text(p: RuleProblem) -> Seq<char> {
    match p {
        RuleProblem::TooMany => "Demasiadas correcciones"@,
        RuleProblem::EmptyOrTooLong => "Correccion vacia o demasiado larga"@,
        RuleProblem::NoChange => "La correccion debe cambiar la palabra"@,
        RuleProblem::Duplicate => "Ya existe una regla para esa palabra"@,
    }
}

impl RuleProblem {
    pub fn message(&self) -> (m: String)
        ensures
            m@ == rule_problem_text(*self),
    {
        match self {
            RuleProblem::TooMany => String::from_str("Demasiadas correcciones"),
            RuleProblem::EmptyOrTooLong => String::from_str("Correccion vacia o demasiado larga"),
            RuleProblem::NoChange => String::from_str("La correccion debe cambiar la palabra"),
            RuleProblem::Duplicate => String::from_str("Ya existe una regla para esa palabra"),
        }
    }
}

/// The word a rule stands for: its source, trimmed, in lowercase.
pub open spec fn rule_key(r: Rule) -> Seq<char> {
    lower(trim(r.source@))
}

/// What is wrong with `rules[i]` given the rules before it, if anything.
pub open spec fn problem_at(rules: Seq<Rule>, i: int) -> Option<RuleProblem> {
    let r = rules[i];
    if rule_key(r).len() == 0 || trim(r.target@).len() == 0 || byte_len(r.source@) > 500
        || byte_len(r.target@) > 500 || r.id@.len() == 0 {
        Some(RuleProblem::EmptyOrTooLong)
    } else if rule_key(r) == lower(trim(r.target@)) {
        Some(RuleProblem::NoChange)
    } else if exists|j: int|
        0 <= j < i && (rule_key(#[trigger] rules[j]) == rule_key(r) || rules[j].id@ == r.id@) {
        Some(RuleProblem::Duplicate)
    } else {
        None
    }
}

/// The first problem among the first `n` rules.
pub open spec fn first_problem(rules: Seq<Rule>, n: nat) -> Option<RuleProblem>
    decreases n,
{
    if n == 0 {
        None
    } else {
        match first_problem(rules, (n - 1) as nat) {
            Some(p) => Some(p),
            None => problem_at(rules, n - 1),
        }
    }
}

/// Why a dictionary is refused, or `None` when it is accepted.
pub open spec fn rule_problem(rules: Seq<Rule>) -> Option<RuleProblem> {
    if rules.len() > 5000 {
        Some(RuleProblem::TooMany)
    } else {
        first_problem(rules, rules.len())
    }
}

fn contains_chars_vec(list: &Vec<Vec<char>>, x: &Vec<char>) -> (r: bool)
    ensures
        r == exists|j: int| 0 <= j < list.len() && #[trigger] list@[j]@ == x@,
{
    let mut j: usize = 0;
    while j < list.len()
        invariant
            j <= list.len(),
            forall|m: int| 0 <= m < j ==> #[trigger] list@[m]@ != x@,
        decreases list.len() - j,
    {
        if chars_eq(list[j].as_slice(), x.as_slice()) {
            return true;
        }
        j += 1;
    }
    false
}

/// Accepts a dictionary of at most 5000 rules in which every rule has an id,
/// a non-blank source and target of at most 500 bytes each, a target that
/// differs from the source other than in case and surrounding space, and no
/// source word or id that an earlier rule already has; otherwise the first
/// problem, in rule order, is reported.
pub fn validate_rules(rules: &[Rule]) -> (r: Result<(), String>)
    ensures
        r is Ok <==> rule_problem(rules@) is None,
        r matches Err(m) ==> m@ == rule_problem_text(rule_problem(rules@)->0),
{
    if rules.len() > 5000 {
        return Err(RuleProblem::TooMany.message());
    }
    let mut seen: Vec<Vec<char>> = Vec::new();
    let mut ids: Vec<Vec<char>> = Vec::new();
    let mut i: usize = 0;
    while i < rules.len()
        invariant
            i <= rules.len() <= 5000,
            first_problem(rules@, i as nat) is None,
            seen.len() == i,
            ids.len() == i,
            forall|j: int| 0 <= j < i ==> #[trigger] seen@[j]@ == rule_key(rules@[j]),
            forall|j: int| 0 <= j < i ==> #[trigger] ids@[j]@ == rules@[j].id@,
        decreases rules.len() - i,
    {
        let r = &rules[i];
        let src_trimmed = trim_chars(chars_of(r.source.as_str()).as_slice());
        let key = chars_of(to_lower(string_of(src_trimmed.as_slice()).as_str()).as_str());
        let tgt_chars = chars_of(r.target.as_str());
        let tgt_trimmed = trim_chars(tgt_chars.as_slice());
        let src_chars = chars_of(r.source.as_str());
        if key.len() == 0 || tgt_trimmed.len() == 0 || byte_len_exceeds(src_chars.as_slice(), 500)
            || byte_len_exceeds(tgt_chars.as_slice(), 500) || r.id.as_str().is_empty() {
            assert(first_problem(rules@, (i + 1) as nat) == Some(RuleProblem::EmptyOrTooLong));
            proof { lemma_first_problem_stays(rules@, (i + 1) as nat, rules.len() as nat); }
            return Err(RuleProblem::EmptyOrTooLong.message());
        }
        let tgt_key = chars_of(to_lower(string_of(tgt_trimmed.as_slice()).as_str()).as_str());
        if chars_eq(key.as_slice(), tgt_key.as_slice()) {
            assert(first_problem(rules@, (i + 1) as nat) == Some(RuleProblem::NoChange));
            proof { lemma_first_problem_stays(rules@, (i + 1) as nat, rules.len() as nat); }
            return Err(RuleProblem::NoChange.message());
        }
        let id = chars_of(r.id.as_str());
        if contains_chars_vec(&seen, &key) || contains_chars_vec(&ids, &id) {
            proof {
                let j = choose|j: int| 0 <= j < i && (seen@[j]@ == key@ || ids@[j]@ == id@);
                assert(rule_key(rules@[j]) == rule_key(rules@[i as int]) || rules@[j].id@
                    == rules@[i as int].id@);
                assert(first_problem(rules@, (i + 1) as nat) == Some(RuleProblem::Duplicate));
                lemma_first_problem_stays(rules@, (i + 1) as nat, rules.len() as nat);
            }
            return Err(RuleProblem::Duplicate.message());
        }
        assert forall|j: int| 0 <= j < i implies !(rule_key(#[trigger] rules@[j]) == rule_key(
            rules@[i as int],
        ) || rules@[j].id@ == rules@[i as int].id@) by {
            assert(seen@[j]@ == rule_key(rules@[j]));
            assert(ids@[j]@ == rules@[j].id@);
        }
        assert(problem_at(rules@, i as int) is None);
        seen.push(key);
        ids.push(id);
        i += 1;
    }
    Ok(())
}

proof fn lemma_first_problem_stays(rules: Seq<Rule>, n: nat, m: nat)
    requires
        n <= m,
        first_problem(rules, n) is Some,
    ensures
        first_problem(rules, m) == first_problem(rules, n),
    decreases m - n,
{
    if m > n {
        lemma_first_problem_stays(rules, n, (m - 1) as nat);
    }
}


// ---------------------------------------------------------------------------
// The vocabulary hint sent with each transcription
// ---------------------------------------------------------------------------

/// The opening of every hint.
pub open spec fn prompt_intro() -> Seq<char> {
    "Transcripcion fiel, con puntuacion. Vocabulario y ortografia preferida: "@
}

/// Most characters a hint may have.
pub const PROMPT_LIMIT: usize = 600;

/// What a rule contributes: its trimmed target and a separator.
pub open spec fn hint_of(r: Rule) -> Seq<char> {
    trim(r.target@) + "; "@
}

/// Enabled rules, longest source (in bytes) first.
pub open spec fn prompt_order(rules: Seq<Rule>) -> Seq<usize> {
    stable_desc(
        Seq::new(rules.len(), |i: int| byte_len(rules[i].source@) as usize),
        Seq::new(rules.len(), |i: int| rules[i].enabled),
        rules.len(),
    )
}

/// The hint after the first `k` rules of `order`: a rule's contribution is
/// added when it still fits in the limit, and skipped otherwise.
pub open spec fn prompt_after(rules: Seq<Rule>, order: Seq<usize>, k: nat) -> Seq<char>
    decreases k,
{
    if k == 0 {
        prompt_intro()
    } else {
        let acc = prompt_after(rules, order, (k - 1) as nat);
        let h = hint_of(rules[order[k - 1] as int]);
        if acc.len() + h.len() > PROMPT_LIMIT {
            acc
        } else {
            acc + h
        }
    }
}

/// The hint for a dictionary.
pub open spec fn prompt_text(rules: Seq<Rule>) -> Seq<char> {
    let o = prompt_order(rules);
    prompt_after(rules, o, o.len())
}

fn prompt_order_exec(rules: &[Rule]) -> (o: Vec<usize>)
    ensures
        o@ == prompt_order(rules@),
        forall|i: int| 0 <= i < o.len() ==> #[trigger] o@[i] < rules.len(),
{
    let mut keys: Vec<usize> = Vec::new();
    let mut keep: Vec<bool> = Vec::new();
    let mut i: usize = 0;
    while i < rules.len()
        invariant
            i <= rules.len(),
            keys.len() == i,
            keep.len() == i,
            forall|j: int| 0 <= j < i ==> #[trigger] keys@[j] == byte_len(rules@[j].source@) as usize,
            forall|j: int| 0 <= j < i ==> #[trigger] keep@[j] == rules@[j].enabled,
        decreases rules.len() - i,
    {
        keys.push(rules[i].source.as_str().len());
        keep.push(rules[i].enabled);
        i += 1;
    }
    assert(keys@ == Seq::new(rules@.len(), |i: int| byte_len(rules@[i].source@) as usize));
    assert(keep@ == Seq::new(rules@.len(), |i: int| rules@[i].enabled));
    let o = stable_desc_order(&keys, &keep);
    proof {
        lemma_stable_desc_indices(keys@, keep@, keys.len() as nat);
    }
    o
}

/// The vocabulary hint sent with a transcription: a fixed opening, then the
/// trimmed target of each enabled rule followed by "; ", longest source
/// first, skipping any that would take the hint past 600 characters.
pub fn prompt(rules: &[Rule]) -> (p: String)
    ensures
        p@ == prompt_text(rules@),
{
    let intro = "Transcripcion fiel, con puntuacion. Vocabulario y ortografia preferida: ";
    proof {
        reveal_strlit("Transcripcion fiel, con puntuacion. Vocabulario y ortografia preferida: ");
    }
    let sep = chars_of("; ");
    let order = prompt_order_exec(rules);
    let mut result = chars_of(intro);
    let mut k: usize = 0;
    while k < order.len()
        invariant
            k <= order.len(),
            order@ == prompt_order(rules@),
            forall|i: int| 0 <= i < order.len() ==> #[trigger] order@[i] < rules.len(),
            result@ == prompt_after(rules@, order@, k as nat),
            result.len() <= PROMPT_LIMIT,
            sep@ == "; "@,
        decreases order.len() - k,
    {
        let r = &rules[order[k]];
        let mut hint = trim_chars(chars_of(r.target.as_str()).as_slice());
        append_chars(&mut hint, sep.as_slice(), 0, sep.len());
        assert(sep@.subrange(0, sep.len() as int) == sep@);
        if hint.len() <= PROMPT_LIMIT - result.len() {
            append_chars(&mut result, hint.as_slice(), 0, hint.len());
            assert(hint@.subrange(0, hint.len() as int) == hint@);
        }
        k += 1;
    }
    string_of(result.as_slice())
}


// ---------------------------------------------------------------------------
// Laws
// ---------------------------------------------------------------------------

proof fn lemma_first_smaller_split(order: Seq<usize>, keys: Seq<usize>, k: usize)
    requires
        forall|i: int| 0 <= i < order.len() ==> #[trigger] order[i] < keys.len(),
        forall|p: int, q: int|
            0 <= p < q < order.len() ==> keys[#[trigger] order[p] as int] >= keys[#[trigger] order[q] as int],
    ensures
        forall|p: int|
            0 <= p < first_smaller(order, keys, k) ==> keys[#[trigger] order[p] as int] >= k,
        forall|p: int|
            first_smaller(order, keys, k) <= p < order.len() ==> keys[#[trigger] order[p] as int] < k,
    decreases order.len(),
{
    if order.len() > 0 {
        let rest = order.drop_first();
        if keys[order[0] as int] >= k {
            assert forall|p: int, q: int| 0 <= p < q < rest.len() implies keys[#[trigger] rest[p] as int]
                >= keys[#[trigger] rest[q] as int] by {
                assert(rest[p] == order[p + 1] && rest[q] == order[q + 1]);
            }
            lemma_first_smaller_split(rest, keys, k);
            lemma_first_smaller_bounds(rest, keys, k);
            assert(first_smaller(order, keys, k) == 1 + first_smaller(rest, keys, k));
            assert forall|p: int| 0 <= p < first_smaller(order, keys, k) implies keys[#[trigger] order[p] as int] >= k by {
                if p > 0 {
                    assert(order[p] == rest[p - 1]);
                }
            }
            assert forall|p: int| first_smaller(order, keys, k) <= p < order.len() implies keys[#[trigger] order[p] as int] < k by {
                assert(order[p] == rest[p - 1]);
            }
        } else {
            assert forall|p: int| 0 <= p < order.len() implies keys[#[trigger] order[p] as int] < k by {
                if p > 0 {
                    assert(keys[order[0] as int] >= keys[order[p] as int]);
                }
            }
        }
    }
}

/// Stable descending order: keys never increase along the order, every
/// kept index occurs exactly once, and nothing else occurs.
pub proof fn lemma_stable_desc(keys: Seq<usize>, keep: Seq<bool>, n: nat)
    requires
        n <= usize::MAX,
        n <= keys.len(),
        n <= keep.len(),
    ensures
        forall|p: int, q: int|
            0 <= p < q < stable_desc(keys, keep, n).len() ==> keys[#[trigger] stable_desc(
                keys,
                keep,
                n,
            )[p] as int] >= keys[#[trigger] stable_desc(keys, keep, n)[q] as int],
        forall|p: int, q: int|
            0 <= p < q < stable_desc(keys, keep, n).len() ==> #[trigger] stable_desc(
                keys,
                keep,
                n,
            )[p] != #[trigger] stable_desc(keys, keep, n)[q],
        forall|i: int|
            0 <= i < n ==> (keep[i] <==> #[trigger] stable_desc(keys, keep, n).contains(
                i as usize,
            )),
        forall|p: int|
            0 <= p < stable_desc(keys, keep, n).len() ==> #[trigger] stable_desc(keys, keep, n)[p] < n,
        forall|p: int, q: int|
            0 <= p < q < stable_desc(keys, keep, n).len() && keys[stable_desc(keys, keep, n)[p] as int]
                == keys[stable_desc(keys, keep, n)[q] as int] ==> #[trigger] stable_desc(keys, keep, n)[p]
                < #[trigger] stable_desc(keys, keep, n)[q],
    decreases n,
{
    lemma_stable_desc_indices(keys, keep, n);
    if n > 0 {
        let m = (n - 1) as nat;
        lemma_stable_desc(keys, keep, m);
        lemma_stable_desc_indices(keys, keep, m);
        let o = stable_desc(keys, keep, m);
        if keep[m as int] {
            let k = keys[m as int];
            let q = first_smaller(o, keys, k);
            lemma_first_smaller_bounds(o, keys, k);
            lemma_first_smaller_split(o, keys, k);
            let o2 = o.insert(q, m as usize);
            o.insert_ensures(q, m as usize);
            assert(o2 == stable_desc(keys, keep, n));
            assert forall|p: int| 0 <= p < o2.len() implies (p < q ==> #[trigger] o2[p] == o[p]) && (p == q ==> o2[p] == m) && (p > q ==> o2[p] == o[p - 1]) by {}
            assert forall|p: int, r: int| 0 <= p < r < o2.len() implies keys[#[trigger] o2[p] as int] >= keys[#[trigger] o2[r] as int] by {
                if r < q {
                } else if r == q {
                } else if p < q {
                    assert(keys[o[p] as int] >= keys[o[r - 1] as int] || p == r - 1);
                } else if p == q {
                } else {
                }
            }
            assert forall|p: int, r: int| 0 <= p < r < o2.len() implies #[trigger] o2[p] != #[trigger] o2[r] by {
                if p == q {
                    assert(o[r - 1] < m);
                } else if r == q {
                    assert(o[p] < m);
                }
            }
            assert forall|p: int, r: int| 0 <= p < r < o2.len() && keys[o2[p] as int] == keys[o2[r] as int]
                implies #[trigger] o2[p] < #[trigger] o2[r] by {
                if p == q {
                    assert(keys[o[r - 1] as int] < k);
                } else if r == q {
                    assert(o[p] < m);
                } else if p < q && r > q {
                    assert(o[p] < o[r - 1] || p == r - 1);
                } else if p > q {
                    assert(o[p - 1] < o[r - 1] || p == r);
                }
            }
            assert forall|i: int| 0 <= i < n implies (keep[i] <==> #[trigger] o2.contains(i as usize)) by {
                if i < m {
                    if o.contains(i as usize) {
                        let p = choose|p: int| 0 <= p < o.len() && o[p] == i as usize;
                        if p < q {
                            assert(o2[p] == i as usize);
                        } else {
                            assert(o2[p + 1] == i as usize);
                        }
                    }
                    if o2.contains(i as usize) {
                        let p = choose|p: int| 0 <= p < o2.len() && o2[p] == i as usize;
                        if p < q {
                            assert(o[p] == i as usize);
                        } else if p > q {
                            assert(o[p - 1] == i as usize);
                        }
                    }
                } else {
                    assert(o2[q] == m);
                }
            }
        } else {
            assert forall|i: int| 0 <= i < n implies (keep[i] <==> #[trigger] o.contains(i as usize)) by {
                if i < m {
                    assert(keep[i] <==> stable_desc(keys, keep, m).contains(i as usize));
                } else {
                    if o.contains(i as usize) {
                        let p = choose|p: int| 0 <= p < o.len() && o[p] == i as usize;
                        assert(o[p] < m);
                    }
                }
            }
        }
    }
}

/// Corrections apply longest sources first: along the order in which rules
/// are applied, source lengths (in characters) never increase; each active
/// rule is applied exactly once and no inactive rule is applied; rules with
/// sources of the same length keep their order in the dictionary.
pub proof fn law_corrections_longest_first(rules: Seq<Rule>)
    requires
        rules.len() <= usize::MAX,
        forall|i: int| 0 <= i < rules.len() ==> #[trigger] rules[i].source@.len() <= usize::MAX,
    ensures
        forall|p: int, q: int|
            0 <= p < q < correction_order(rules).len() ==> rules[#[trigger] correction_order(
                rules,
            )[p] as int].source@.len() >= rules[#[trigger] correction_order(rules)[q] as int].source@.len(),
        forall|p: int, q: int|
            0 <= p < q < correction_order(rules).len() ==> #[trigger] correction_order(rules)[p]
                != #[trigger] correction_order(rules)[q],
        forall|i: int|
            0 <= i < rules.len() ==> (correction_active(rules[i]) <==> #[trigger] correction_order(
                rules,
            ).contains(i as usize)),
        forall|p: int, q: int|
            0 <= p < q < correction_order(rules).len() && rules[correction_order(rules)[p] as int].source@.len()
                == rules[correction_order(rules)[q] as int].source@.len() ==> #[trigger] correction_order(
                rules,
            )[p] < #[trigger] correction_order(rules)[q],
{
    let keys = Seq::new(rules.len(), |i: int| rules[i].source@.len() as usize);
    let keep = Seq::new(rules.len(), |i: int| correction_active(rules[i]));
    lemma_stable_desc(keys, keep, rules.len());
    let o = correction_order(rules);
    assert forall|p: int, q: int| 0 <= p < q < o.len() implies rules[#[trigger] o[p] as int].source@.len()
        >= rules[#[trigger] o[q] as int].source@.len() by {
        assert(keys[o[p] as int] >= keys[o[q] as int]);
        assert(o[p] < rules.len() && o[q] < rules.len());
        assert(keys[o[p] as int] == rules[o[p] as int].source@.len());
        assert(keys[o[q] as int] == rules[o[q] as int].source@.len());
    }
    assert forall|p: int, q: int| 0 <= p < q < o.len() && rules[o[p] as int].source@.len()
        == rules[o[q] as int].source@.len() implies #[trigger] o[p] < #[trigger] o[q] by {
        assert(o[p] < rules.len() && o[q] < rules.len());
        assert(keys[o[p] as int] == rules[o[p] as int].source@.len());
        assert(keys[o[q] as int] == rules[o[q] as int].source@.len());
    }
}

/// The rules that take part in corrections among the first `n`, in
/// dictionary order.
pub open spec fn active_prefix(rules: Seq<Rule>, n: nat) -> Seq<Rule>
    decreases n,
{
    if n == 0 {
        Seq::empty()
    } else {
        let a = active_prefix(rules, (n - 1) as nat);
        if correction_active(rules[n - 1]) {
            a.push(rules[n - 1])
        } else {
            a
        }
    }
}

/// The rules that take part in corrections, in dictionary order.
pub open spec fn active_rules(rules: Seq<Rule>) -> Seq<Rule> {
    active_prefix(rules, rules.len())
}

/// Where the rules of `active_prefix(rules, n)` stand in `rules`.
spec fn active_positions(rules: Seq<Rule>, n: nat) -> Seq<usize>
    decreases n,
{
    if n == 0 {
        Seq::empty()
    } else {
        let a = active_positions(rules, (n - 1) as nat);
        if correction_active(rules[n - 1]) {
            a.push((n - 1) as usize)
        } else {
            a
        }
    }
}

proof fn lemma_active_positions(rules: Seq<Rule>, n: nat)
    requires
        n <= rules.len(),
        rules.len() <= usize::MAX,
    ensures
        active_positions(rules, n).len() == active_prefix(rules, n).len(),
        active_prefix(rules, n).len() <= n,
        forall|k: int|
            0 <= k < active_prefix(rules, n).len() ==> #[trigger] active_positions(rules, n)[k] < n
                && active_prefix(rules, n)[k] == rules[active_positions(rules, n)[k] as int],
    decreases n,
{
    if n > 0 {
        lemma_active_positions(rules, (n - 1) as nat);
    }
}

proof fn lemma_active_extends(rules: Seq<Rule>, n: nat, m: nat)
    requires
        n <= m <= rules.len(),
        rules.len() <= usize::MAX,
    ensures
        active_prefix(rules, n).len() <= active_prefix(rules, m).len(),
        forall|k: int|
            0 <= k < active_prefix(rules, n).len() ==> #[trigger] active_prefix(rules, m)[k]
                == active_prefix(rules, n)[k] && active_positions(rules, m)[k] == active_positions(
                rules,
                n,
            )[k],
    decreases m - n,
{
    if m > n {
        lemma_active_extends(rules, n, (m - 1) as nat);
        lemma_active_positions(rules, (m - 1) as nat);
    }
}

proof fn lemma_first_smaller_mapped(o: Seq<usize>, pos: Seq<usize>, keys: Seq<usize>, keys_a: Seq<usize>, k: usize)
    requires
        forall|p: int| 0 <= p < o.len() ==> #[trigger] o[p] < pos.len() && o[p] < keys_a.len()
            && pos[o[p] as int] < keys.len() && keys[pos[o[p] as int] as int] == keys_a[o[p] as int],
    ensures
        first_smaller(o.map_values(|x: usize| pos[x as int]), keys, k) == first_smaller(o, keys_a, k),
    decreases o.len(),
{
    let mo = o.map_values(|x: usize| pos[x as int]);
    if o.len() > 0 {
        assert(mo.drop_first() =~= o.drop_first().map_values(|x: usize| pos[x as int]));
        assert(mo[0] == pos[o[0] as int]);
        lemma_first_smaller_mapped(o.drop_first(), pos, keys, keys_a, k);
    }
}

proof fn lemma_order_of_active(rules: Seq<Rule>, n: nat)
    requires
        n <= rules.len(),
        rules.len() <= usize::MAX,
    ensures
        stable_desc(
            Seq::new(rules.len(), |i: int| rules[i].source@.len() as usize),
            Seq::new(rules.len(), |i: int| correction_active(rules[i])),
            n,
        ) == stable_desc(
            Seq::new(active_rules(rules).len(), |i: int| active_rules(rules)[i].source@.len() as usize),
            Seq::new(active_rules(rules).len(), |i: int| correction_active(active_rules(rules)[i])),
            active_prefix(rules, n).len(),
        ).map_values(|x: usize| active_positions(rules, rules.len())[x as int]),
    decreases n,
{
    let keys = Seq::new(rules.len(), |i: int| rules[i].source@.len() as usize);
    let keep = Seq::new(rules.len(), |i: int| correction_active(rules[i]));
    let a = active_rules(rules);
    let keys_a = Seq::new(a.len(), |i: int| a[i].source@.len() as usize);
    let keep_a = Seq::new(a.len(), |i: int| correction_active(a[i]));
    let pos = active_positions(rules, rules.len());
    lemma_active_positions(rules, rules.len());
    lemma_active_extends(rules, n, rules.len());
    lemma_active_positions(rules, n);
    if n == 0 {
        assert(stable_desc(keys_a, keep_a, 0).map_values(|x: usize| pos[x as int]) =~= Seq::<usize>::empty());
    } else {
        let m = (n - 1) as nat;
        lemma_order_of_active(rules, m);
        lemma_active_extends(rules, m, rules.len());
        lemma_active_positions(rules, m);
        let c = active_prefix(rules, m).len();
        let o_a = stable_desc(keys_a, keep_a, c);
        let o = stable_desc(keys, keep, m);
        lemma_stable_desc_indices(keys_a, keep_a, c);
        if keep[m as int] {
            assert(active_prefix(rules, n).len() == c + 1);
            assert(active_positions(rules, n)[c as int] == m);
            assert(active_prefix(rules, n)[c as int] == rules[m as int]);
            assert(pos[c as int] == m);
            assert(a[c as int] == rules[m as int]);
            assert(keep_a[c as int]);
            let k = keys[m as int];
            assert(keys_a[c as int] == k);
            assert forall|p: int| 0 <= p < o_a.len() implies #[trigger] o_a[p] < pos.len() && o_a[p]
                < keys_a.len() && pos[o_a[p] as int] < keys.len() && keys[pos[o_a[p] as int] as int]
                == keys_a[o_a[p] as int] by {
                let x = o_a[p] as int;
                assert(x < c);
                assert(a[x] == rules[pos[x] as int]);
            }
            lemma_first_smaller_mapped(o_a, pos, keys, keys_a, k);
            let q = first_smaller(o_a, keys_a, k);
            lemma_first_smaller_bounds(o_a, keys_a, k);
            o_a.insert_ensures(q, c as usize);
            let mo = o_a.map_values(|x: usize| pos[x as int]);
            mo.insert_ensures(q, m as usize);
            assert(o_a.insert(q, c as usize).map_values(|x: usize| pos[x as int]) =~= mo.insert(q, m as usize));
        } else {
            assert(active_prefix(rules, n).len() == c);
        }
    }
}

proof fn lemma_apply_mapped(text: Seq<char>, rules: Seq<Rule>, a: Seq<Rule>, o_a: Seq<usize>, pos: Seq<usize>, k: nat)
    requires
        k <= o_a.len(),
        forall|p: int| 0 <= p < o_a.len() ==> #[trigger] o_a[p] < a.len() && o_a[p] < pos.len()
            && a[o_a[p] as int] == rules[pos[o_a[p] as int] as int],
    ensures
        apply_in_order(text, rules, o_a.map_values(|x: usize| pos[x as int]), k) == apply_in_order(text, a, o_a, k),
    decreases k,
{
    if k > 0 {
        lemma_apply_mapped(text, rules, a, o_a, pos, (k - 1) as nat);
        assert(o_a[k - 1] < a.len());
    }
}

/// Inactive rules play no part: the dictionary applied to a text gives what
/// its active rules alone, in their order, give.
pub proof fn law_corrections_only_active_rules(text: Seq<char>, rules: Seq<Rule>)
    requires
        rules.len() <= usize::MAX,
    ensures
        corrected(text, rules) == corrected(text, active_rules(rules)),
{
    let a = active_rules(rules);
    let keys_a = Seq::new(a.len(), |i: int| a[i].source@.len() as usize);
    let keep_a = Seq::new(a.len(), |i: int| correction_active(a[i]));
    let pos = active_positions(rules, rules.len());
    lemma_order_of_active(rules, rules.len());
    lemma_active_positions(rules, rules.len());
    let o_a = stable_desc(keys_a, keep_a, a.len());
    lemma_stable_desc_indices(keys_a, keep_a, a.len());
    assert(o_a == correction_order(a));
    assert forall|p: int| 0 <= p < o_a.len() implies #[trigger] o_a[p] < a.len() && o_a[p] < pos.len()
        && a[o_a[p] as int] == rules[pos[o_a[p] as int] as int] by {
    }
    lemma_apply_mapped(text, rules, a, o_a, pos, o_a.len());
}

/// With no active rule, corrections leave the text as it is.
pub proof fn law_corrections_without_active_rules(text: Seq<char>, rules: Seq<Rule>)
    requires
        rules.len() <= usize::MAX,
        forall|i: int| 0 <= i < rules.len() ==> !correction_active(#[trigger] rules[i]),
    ensures
        corrected(text, rules) == text,
{
    let keys = Seq::new(rules.len(), |i: int| rules[i].source@.len() as usize);
    let keep = Seq::new(rules.len(), |i: int| correction_active(rules[i]));
    lemma_stable_desc(keys, keep, rules.len());
    let o = correction_order(rules);
    if o.len() > 0 {
        let i = o[0] as int;
        assert(o.contains(i as usize));
        assert(0 <= i < rules.len());
        assert(keep[i]);
        assert(!correction_active(rules[i]));
    }
}

/// An accepted dictionary has no blank rule, no rule whose target only
/// repeats its source, and no two rules for the same word or with the same id.
pub proof fn law_accepted_rules_are_distinct(rules: Seq<Rule>)
    requires
        rule_problem(rules) is None,
    ensures
        rules.len() <= 5000,
        forall|i: int|
            0 <= i < rules.len() ==> rule_key(#[trigger] rules[i]).len() > 0 && trim(
                rules[i].target@,
            ).len() > 0 && rule_key(rules[i]) != lower(trim(rules[i].target@)),
        forall|i: int, j: int|
            0 <= j < i < rules.len() ==> rule_key(#[trigger] rules[j]) != rule_key(
                #[trigger] rules[i],
            ) && rules[j].id@ != rules[i].id@,
{
    lemma_no_problem_prefix(rules, rules.len());
    assert forall|i: int|
        0 <= i < rules.len() implies rule_key(#[trigger] rules[i]).len() > 0 && trim(
            rules[i].target@,
        ).len() > 0 && rule_key(rules[i]) != lower(trim(rules[i].target@)) by {
        assert(problem_at(rules, i) is None);
    }
    assert forall|i: int, j: int| 0 <= j < i < rules.len() implies rule_key(#[trigger] rules[j])
        != rule_key(#[trigger] rules[i]) && rules[j].id@ != rules[i].id@ by {
        assert(problem_at(rules, i) is None);
    }
}

proof fn lemma_no_problem_prefix(rules: Seq<Rule>, n: nat)
    requires
        first_problem(rules, n) is None,
    ensures
        forall|i: int| 0 <= i < n ==> #[trigger] problem_at(rules, i) is None,
    decreases n,
{
    if n > 0 {
        lemma_no_problem_prefix(rules, (n - 1) as nat);
    }
}

proof fn lemma_prompt_after(rules: Seq<Rule>, order: Seq<usize>, k: nat)
    ensures
        prompt_after(rules, order, k).len() <= PROMPT_LIMIT,
        prompt_after(rules, order, k).subrange(0, prompt_intro().len() as int) == prompt_intro(),
        prompt_intro().len() <= prompt_after(rules, order, k).len(),
    decreases k,
{
    reveal_strlit("Transcripcion fiel, con puntuacion. Vocabulario y ortografia preferida: ");
    if k > 0 {
        lemma_prompt_after(rules, order, (k - 1) as nat);
        let acc = prompt_after(rules, order, (k - 1) as nat);
        let h = hint_of(rules[order[k - 1] as int]);
        if acc.len() + h.len() <= PROMPT_LIMIT {
            assert((acc + h).subrange(0, prompt_intro().len() as int) == acc.subrange(
                0,
                prompt_intro().len() as int,
            ));
        }
    } else {
        assert(prompt_intro().subrange(0, prompt_intro().len() as int) == prompt_intro());
    }
}

/// The hint always begins with its fixed opening and never exceeds 600
/// characters, whatever the dictionary.
pub proof fn law_prompt_bounded(rules: Seq<Rule>)
    ensures
        prompt_text(rules).len() <= PROMPT_LIMIT,
        crate::text::starts_with(prompt_text(rules), prompt_intro()),
{
    let o = prompt_order(rules);
    lemma_prompt_after(rules, o, o.len());
}


// ---------------------------------------------------------------------------
// Requests
// ---------------------------------------------------------------------------

/// File extensions that can be sent for transcription.
pub open spec fn supported_audio_extension(e: Seq<char>) -> bool {
    ||| e == "wav"@
    ||| e == "mp3"@
    ||| e == "m4a"@
    ||| e == "ogg"@
    ||| e == "webm"@
    ||| e == "flac"@
    ||| e == "mp4"@
    ||| e == "mpeg"@
    ||| e == "mpga"@
}

/// The lowercase extension of an audio file that can be sent, or the
/// refusal.
pub fn audio_extension(ext: &str) -> (r: Result<String, String>)
    ensures
        r is Ok <==> supported_audio_extension(lower(ext@)),
        r matches Ok(e) ==> e@ == lower(ext@),
        r matches Err(m) ==> m@ == "Formato de audio no admitido"@,
{
    let e = to_lower(ext);
    let s = e.as_str();
    if str_eq(s, "wav") || str_eq(s, "mp3") || str_eq(s, "m4a") || str_eq(s, "ogg") || str_eq(s, "webm")
        || str_eq(s, "flac") || str_eq(s, "mp4") || str_eq(s, "mpeg") || str_eq(s, "mpga") {
        Ok(e)
    } else {
        Err(String::from_str("Formato de audio no admitido"))
    }
}

/// Largest audio file the service accepts, in bytes.
pub const MAX_UPLOAD_BYTES: u64 = 24_000_000;

/// A file can be sent when it is a regular file of 1 to 24 000 000 bytes.
pub fn upload_size(is_file: bool, len: u64) -> (r: Result<(), String>)
    ensures
        r is Ok <==> (is_file && 0 < len <= MAX_UPLOAD_BYTES),
        r matches Err(m) ==> m@ == "Selecciona un archivo de audio de hasta 24 MB. El original no se modifica."@,
{
    if !is_file || len == 0 || len > MAX_UPLOAD_BYTES {
        return Err(String::from_str("Selecciona un archivo de audio de hasta 24 MB. El original no se modifica."));
    }
    Ok(())
}

/// A text field of the multipart request.
#[derive(Clone, Debug)]
pub struct FormField {
    pub name: String,
    pub value: String,
}

/// The text fields of a transcription request, in order: model, response
/// format (with word timestamps when asked), temperature 0, the timestamp
/// granularity when asked, the vocabulary hint when there are rules, and the
/// language unless it is detected automatically.
pub open spec fn request_fields_spec(settings: Settings, rules: Seq<Rule>, word_times: bool) -> Seq<(Seq<char>, Seq<char>)> {
    let base = seq![
        ("model"@, settings.model@),
        ("response_format"@, if word_times { "verbose_json"@ } else { "json"@ }),
        ("temperature"@, "0"@),
    ];
    let with_times = if word_times { base.push(("timestamp_granularities[]"@, "word"@)) } else { base };
    let with_prompt = if rules.len() > 0 { with_times.push(("prompt"@, prompt_text(rules))) } else { with_times };
    if settings.language@ != "auto"@ { with_prompt.push(("language"@, settings.language@)) } else { with_prompt }
}

fn field(name: &str, value: String) -> (f: FormField)
    ensures
        f.name@ == name@,
        f.value == value,
{
    FormField { name: String::from_str(name), value }
}

/// The text fields of a transcription request.
pub fn request_fields(settings: &Settings, rules: &[Rule], word_times: bool) -> (fields: Vec<FormField>)
    ensures
        fields@.map_values(|f: FormField| (f.name@, f.value@)) == request_fields_spec(*settings, rules@, word_times),
{
    let mut fields: Vec<FormField> = Vec::new();
    fields.push(field("model", settings.model.clone()));
    fields.push(field("response_format", if word_times { String::from_str("verbose_json") } else { String::from_str("json") }));
    fields.push(field("temperature", String::from_str("0")));
    if word_times {
        fields.push(field("timestamp_granularities[]", String::from_str("word")));
    }
    if rules.len() > 0 {
        fields.push(field("prompt", prompt(rules)));
    }
    if !str_eq(settings.language.as_str(), "auto") {
        fields.push(field("language", settings.language.clone()));
    }
    assert(fields@.map_values(|f: FormField| (f.name@, f.value@)) =~= request_fields_spec(*settings, rules@, word_times));
    fields
}

/// The refusal reported for an HTTP status other than success.
pub open spec fn http_error_text(status: u16) -> Seq<char> {
    "Groq respondio HTTP "@ + decimal(status as nat) + ". El audio original sigue disponible para reintentar."@
}

/// The refusal reported when the service cannot be reached.
pub open spec fn connect_error_text() -> Seq<char> {
    "No se pudo conectar con Groq. El audio original sigue disponible."@
}

/// The message for an unsuccessful HTTP status.
pub fn http_error(status: u16) -> (m: String)
    ensures
        m@ == http_error_text(status),
{
    let mut v = chars_of("Groq respondio HTTP ");
    let d = decimal_chars(status as u64);
    append_chars(&mut v, d.as_slice(), 0, d.len());
    let tail = chars_of(". El audio original sigue disponible para reintentar.");
    append_chars(&mut v, tail.as_slice(), 0, tail.len());
    assert(d@.subrange(0, d.len() as int) == d@);
    assert(tail@.subrange(0, tail.len() as int) == tail@);
    string_of(v.as_slice())
}

/// The message when the service cannot be reached.
pub fn connect_error() -> (m: String)
    ensures
        m@ == connect_error_text(),
{
    String::from_str("No se pudo conectar con Groq. El audio original sigue disponible.")
}

/// The text of a response, with the dictionary applied or not.
pub fn transcript_text(text: Option<String>, rules: &[Rule], apply: bool) -> (r: Result<String, String>)
    ensures
        r is Ok <==> text is Some,
        r matches Ok(t) ==> t@ == (if apply { corrected(text->0@, rules@) } else { text->0@ }),
        r matches Err(m) ==> m@ == "Groq no devolvio texto"@,
{
    match text {
        None => Err(String::from_str("Groq no devolvio texto")),
        Some(t) => if apply {
            Ok(corrections(t.as_str(), rules))
        } else {
            Ok(t)
        },
    }
}


/// A character that `\w` of the `regex` crate matches, written out: an
/// ASCII letter, digit or `_`, or any other character that the crate's
/// Unicode word class holds, accented letters among them.
pub open spec fn regex_word_neighbour(c: char) -> bool {
    ||| 'a' <= c <= 'z'
    ||| 'A' <= c <= 'Z'
    ||| '0' <= c <= '9'
    ||| c == '_'
    ||| ((c as u32) >= 128 && regex_word_char(c))
}

/// A match at `(s, e)` of `text` has a word character right before or right
/// after it.
pub open spec fn inside_word(text: Seq<char>, s: int, e: int) -> bool {
    (0 < s <= text.len() && regex_word_neighbour(text[s - 1])) || (0 <= e < text.len()
        && regex_word_neighbour(text[e]))
}

proof fn lemma_touches_is_inside_word(text: Seq<char>, s: int, e: int)
    requires
        0 <= s <= e <= text.len(),
    ensures
        touches_word(text, s, e) <==> inside_word(text, s, e),
{
}

proof fn lemma_kept_prefix(text: Seq<char>, ms: Seq<(usize, usize)>, target: Seq<char>, k: nat)
    requires
        k <= ms.len(),
        forall|i: int| 0 <= i < ms.len() ==> (#[trigger] ms[i]).0 <= ms[i].1 <= text.len(),
        forall|i: int| 0 <= i < ms.len() ==> inside_word(text, (#[trigger] ms[i]).0 as int, ms[i].1 as int),
    ensures
        splice_prefix(text, ms, target, k) == (Seq::<char>::empty(), 0int),
    decreases k,
{
    if k > 0 {
        lemma_kept_prefix(text, ms, target, (k - 1) as nat);
        let m = ms[k - 1];
        lemma_touches_is_inside_word(text, m.0 as int, m.1 as int);
    }
}

/// Whole words only: where every match has a word character (ASCII or not,
/// such as the `ó` of "Ramón") right before or after it, the text is left
/// exactly as it was.
pub proof fn law_matches_inside_words_stay(text: Seq<char>, ms: Seq<(usize, usize)>, target: Seq<char>)
    requires
        forall|i: int| 0 <= i < ms.len() ==> (#[trigger] ms[i]).0 <= ms[i].1 <= text.len(),
        forall|i: int| 0 <= i < ms.len() ==> inside_word(text, (#[trigger] ms[i]).0 as int, ms[i].1 as int),
    ensures
        splice(text, ms, target) == text,
{
    lemma_kept_prefix(text, ms, target, ms.len());
    assert(text.subrange(0, text.len() as int) =~= text);
    assert(Seq::<char>::empty() + text =~= text);
}

/// One match: it is replaced by the target, taken literally, exactly when no
/// word character stands right before or after it; otherwise the text stays.
pub proof fn law_one_match(text: Seq<char>, s: usize, e: usize, target: Seq<char>)
    requires
        s <= e <= text.len(),
    ensures
        splice(text, seq![(s, e)], target) == (if inside_word(text, s as int, e as int) {
            text
        } else {
            text.subrange(0, s as int) + target + text.subrange(e as int, text.len() as int)
        }),
{
    let ms = seq![(s, e)];
    lemma_touches_is_inside_word(text, s as int, e as int);
    assert(splice_prefix(text, ms, target, 0) == (Seq::<char>::empty(), 0int));
    if inside_word(text, s as int, e as int) {
        assert(text.subrange(0, text.len() as int) =~= text);
        assert(Seq::<char>::empty() + text =~= text);
    } else {
        assert(Seq::<char>::empty() + text.subrange(0, s as int) =~= text.subrange(0, s as int));
    }
}

/// A rule never changes text where each place its source is found lies
/// inside a word: so "ram" leaves "Ramón" as it is.
pub proof fn law_rule_keeps_words(text: Seq<char>, source: Seq<char>, target: Seq<char>)
    requires
        literal_matches(text, source) matches Some(ms) ==> {
            let f = found(text, source, ms);
            &&& forall|i: int| 0 <= i < f.len() ==> (#[trigger] f[i]).0 <= f[i].1 <= text.len()
            &&& forall|i: int| 0 <= i < f.len() ==> inside_word(text, (#[trigger] f[i]).0 as int, f[i].1 as int)
        },
    ensures
        apply_rule(text, source, target) == text,
{
    if let Some(ms) = literal_matches(text, source) {
        law_matches_inside_words_stay(text, found(text, source, ms), target);
    }
}

/// The audio formats that can be sent are exactly wav, mp3, m4a, ogg, webm,
/// flac, mp4, mpeg and mpga, in any letter case; the accepted extension is
/// handed on in lowercase.
pub proof fn law_audio_formats(ext: Seq<char>)
    ensures
        supported_audio_extension(lower(ext)) <==> (lower(ext) == "wav"@ || lower(ext) == "mp3"@
            || lower(ext) == "m4a"@ || lower(ext) == "ogg"@ || lower(ext) == "webm"@ || lower(ext)
            == "flac"@ || lower(ext) == "mp4"@ || lower(ext) == "mpeg"@ || lower(ext) == "mpga"@),
        is_ascii_text(ext) ==> lower(ext) == ext.map_values(|c: char| ascii_lower(c)),
{
}

/// A dictionary is accepted exactly when it has at most 5000 rules, each
/// with a non-blank source and target of at most 500 bytes each and a
/// non-empty id, a target that is not its source again in another letter
/// case, and no two rules for the same word (trimmed, in lowercase) or with
/// the same id; more than 5000 rules are refused as too many.
pub proof fn law_rules_accepted(rules: Seq<Rule>)
    ensures
        rule_problem(rules) is None <==> {
            &&& rules.len() <= 5000
            &&& forall|i: int| 0 <= i < rules.len() ==> {
                let r = #[trigger] rules[i];
                &&& lower(trim(r.source@)).len() > 0
                &&& trim(r.target@).len() > 0
                &&& byte_len(r.source@) <= 500
                &&& byte_len(r.target@) <= 500
                &&& r.id@.len() > 0
                &&& lower(trim(r.source@)) != lower(trim(r.target@))
            }
            &&& forall|i: int, j: int| 0 <= j < i < rules.len() ==> lower(trim((#[trigger] rules[j]).source@))
                != lower(trim((#[trigger] rules[i]).source@)) && rules[j].id@ != rules[i].id@
        },
        rules.len() > 5000 ==> rule_problem(rules) == Some(RuleProblem::TooMany),
{
    if rule_problem(rules) is None {
        lemma_no_problem_prefix(rules, rules.len());
        assert forall|i: int, j: int| 0 <= j < i < rules.len() implies lower(trim((#[trigger] rules[j]).source@))
            != lower(trim((#[trigger] rules[i]).source@)) && rules[j].id@ != rules[i].id@ by {
            assert(problem_at(rules, i) is None);
        }
        assert forall|i: int| 0 <= i < rules.len() implies {
            let r = #[trigger] rules[i];
            &&& lower(trim(r.source@)).len() > 0
            &&& trim(r.target@).len() > 0
            &&& byte_len(r.source@) <= 500
            &&& byte_len(r.target@) <= 500
            &&& r.id@.len() > 0
            &&& lower(trim(r.source@)) != lower(trim(r.target@))
        } by {
            assert(problem_at(rules, i) is None);
        }
    }
    if rules.len() <= 5000 && (forall|i: int| 0 <= i < rules.len() ==> {
        let r = #[trigger] rules[i];
        &&& lower(trim(r.source@)).len() > 0
        &&& trim(r.target@).len() > 0
        &&& byte_len(r.source@) <= 500
        &&& byte_len(r.target@) <= 500
        &&& r.id@.len() > 0
        &&& lower(trim(r.source@)) != lower(trim(r.target@))
    }) && (forall|i: int, j: int| 0 <= j < i < rules.len() ==> lower(trim((#[trigger] rules[j]).source@))
        != lower(trim((#[trigger] rules[i]).source@)) && rules[j].id@ != rules[i].id@) {
        assert forall|i: int| 0 <= i < rules.len() implies #[trigger] problem_at(rules, i) is None by {
            let r = rules[i];
            assert(lower(trim(r.source@)).len() > 0);
            assert(!exists|j: int|
                0 <= j < i && (rule_key(#[trigger] rules[j]) == rule_key(r) || rules[j].id@ == r.id@)) by {
                if exists|j: int| 0 <= j < i && (rule_key(#[trigger] rules[j]) == rule_key(r) || rules[j].id@ == r.id@) {
                    let j = choose|j: int| 0 <= j < i && (rule_key(#[trigger] rules[j]) == rule_key(r) || rules[j].id@ == r.id@);
                    assert(lower(trim(rules[j].source@)) != lower(trim(rules[i].source@)));
                }
            }
        }
        lemma_problem_free_prefix(rules, rules.len());
    }
}

proof fn lemma_problem_free_prefix(rules: Seq<Rule>, n: nat)
    requires
        n <= rules.len(),
        forall|i: int| 0 <= i < rules.len() ==> #[trigger] problem_at(rules, i) is None,
    ensures
        first_problem(rules, n) is None,
    decreases n,
{
    if n > 0 {
        lemma_problem_free_prefix(rules, (n - 1) as nat);
        assert(problem_at(rules, n - 1) is None);
    }
}

/// A transcription request sends, in this order: the model, the response
/// format (`verbose_json` with word times, else `json`), temperature `0`,
/// the word granularity only when word times are asked, the vocabulary hint
/// only when the dictionary has rules, and the language only when it is not
/// detected automatically, as the last field.
pub proof fn law_request_fields(settings: Settings, rules: Seq<Rule>, word_times: bool)
    ensures
        ({
            let f = request_fields_spec(settings, rules, word_times);
            let n: int = 3 + (if word_times { 1int } else { 0 }) + (if rules.len() > 0 { 1int } else { 0 })
                + (if settings.language@ != "auto"@ { 1int } else { 0 });
            &&& f.len() == n
            &&& f[0] == ("model"@, settings.model@)
            &&& f[1] == ("response_format"@, if word_times { "verbose_json"@ } else { "json"@ })
            &&& f[2] == ("temperature"@, "0"@)
            &&& word_times ==> f[3] == ("timestamp_granularities[]"@, "word"@)
            &&& rules.len() > 0 ==> f[if word_times { 4int } else { 3 }] == ("prompt"@, prompt_text(rules))
            &&& settings.language@ != "auto"@ ==> f[n - 1] == ("language"@, settings.language@)
            &&& forall|i: int| 0 <= i < n ==> (#[trigger] f[i]).0 != "language"@ || settings.language@ != "auto"@
        }),
{
    reveal_strlit("language");
    reveal_strlit("model");
    reveal_strlit("response_format");
    reveal_strlit("temperature");
    reveal_strlit("timestamp_granularities[]");
    reveal_strlit("prompt");
    assert("model"@ != "language"@) by { assert("model"@.len() != "language"@.len()); }
    assert("response_format"@ != "language"@) by { assert("response_format"@.len() != "language"@.len()); }
    assert("temperature"@ != "language"@) by { assert("temperature"@.len() != "language"@.len()); }
    assert("timestamp_granularities[]"@ != "language"@) by { assert("timestamp_granularities[]"@.len() != "language"@.len()); }
    assert("prompt"@ != "language"@) by { assert("prompt"@.len() != "language"@.len()); }
}

/// Words are compared in lowercase: in an ASCII text each upper-case letter
/// becomes its lower-case letter and every other character stays; any other
/// text is lowercased as `str::to_lowercase` does.
pub proof fn law_lowercase_words(s: Seq<char>)
    ensures
        is_ascii_text(s) ==> lower(s).len() == s.len(),
        is_ascii_text(s) ==> forall|i: int| 0 <= i < s.len() ==> #[trigger] lower(s)[i] == (if 'A' <= s[i] <= 'Z' {
            ((s[i] as u32) + 32) as char
        } else {
            s[i]
        }),
        !is_ascii_text(s) ==> lower(s) == lowercase(s),
{
}

} // verus!
