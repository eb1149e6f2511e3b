//! The tag protocol: a program under measurement writes lines of the form
//! `@benchie key=value` to its standard output, and they are collected into
//! a map from key to value.

use crate::error::ExecutionError;
use crate::text::{chars_of, string_from_chars};
use itertools::Itertools;
use vstd::prelude::*;

verus! {

/// The token, with the single space after it, that starts a tag line.
pub open spec fn tag_prefix() -> Seq<char> {
    seq!['@', 'b', 'e', 'n', 'c', 'h', 'i', 'e', ' ']
}

/// The lines of a text, split at each `'\n'`. A text ending in `'\n'` ends
/// with an empty line; the empty text is one empty line.
pub open spec fn split_lines(text: Seq<char>) -> Seq<Seq<char>>
    decreases text.len(),
{
    if text.len() == 0 {
        seq![Seq::empty()]
    } else {
        let prev = split_lines(text.drop_last());
        if text.last() == '\n' {
            prev.push(Seq::empty())
        } else {
            prev.update(prev.len() - 1, prev.last().push(text.last()))
        }
    }
}

/// Whether a line starts with the tag prefix.
pub open spec fn is_tag_line(line: Seq<char>) -> bool {
    line.len() >= tag_prefix().len() && line.subrange(0, tag_prefix().len() as int)
        == tag_prefix()
}

/// What follows the tag prefix on a tag line.
pub open spec fn payload(line: Seq<char>) -> Seq<char> {
    line.subrange(tag_prefix().len() as int, line.len() as int)
}

/// Whether position `i` of `kv` is its one `=`, with something on each side.
pub open spec fn is_separator(kv: Seq<char>, i: int) -> bool {
    &&& 0 < i < kv.len() - 1
    &&& kv[i] == '='
    &&& forall|j: int| 0 <= j < kv.len() && j != i ==> kv[j] != '='
}

/// Whether `kv` has the shape `key=value`: one `=`, and neither side empty.
pub open spec fn is_key_value(kv: Seq<char>) -> bool {
    exists|i: int| is_separator(kv, i)
}

/// The position of the `=` in a `key=value` text.
pub open spec fn separator_index(kv: Seq<char>) -> int {
    choose|i: int| is_separator(kv, i)
}

/// The key and the value of a `key=value` text.
pub open spec fn split_pair(kv: Seq<char>) -> (Seq<char>, Seq<char>) {
    let i = separator_index(kv);
    (kv.subrange(0, i), kv.subrange(i + 1, kv.len() as int))
}

/// The key and value pairs of the well-formed tag lines, in order.
pub open spec fn tag_pairs(lines: Seq<Seq<char>>) -> Seq<(Seq<char>, Seq<char>)>
    decreases lines.len(),
{
    if lines.len() == 0 {
        seq![]
    } else {
        let rest = tag_pairs(lines.drop_last());
        let line = lines.last();
        if is_tag_line(line) && is_key_value(payload(line)) {
            rest.push(split_pair(payload(line)))
        } else {
            rest
        }
    }
}

/// The payloads of the tag lines that are not of the shape `key=value`.
pub open spec fn malformed_payloads(lines: Seq<Seq<char>>) -> Seq<Seq<char>>
    decreases lines.len(),
{
    if lines.len() == 0 {
        seq![]
    } else {
        let rest = malformed_payloads(lines.drop_last());
        let line = lines.last();
        if is_tag_line(line) && !is_key_value(payload(line)) {
            rest.push(payload(line))
        } else {
            rest
        }
    }
}

/// The keys of a sequence of pairs.
pub open spec fn keys_of(pairs: Seq<(Seq<char>, Seq<char>)>) -> Seq<Seq<char>> {
    pairs.map_values(|p: (Seq<char>, Seq<char>)| p.0)
}

/// How often `x` occurs in `s`.
pub open spec fn count_of<A>(s: Seq<A>, x: A) -> nat
    decreases s.len(),
{
    if s.len() == 0 {
        0
    } else {
        count_of(s.drop_last(), x) + if s.last() == x {
            1nat
        } else {
            0nat
        }
    }
}

/// The elements of `s` that occur for the second time, in the order of
/// those second occurrences: each repeated value once.
pub open spec fn second_occurrences<A>(s: Seq<A>) -> Seq<A>
    decreases s.len(),
{
    if s.len() == 0 {
        seq![]
    } else {
        let rest = second_occurrences(s.drop_last());
        if count_of(s.drop_last(), s.last()) == 1 {
            rest.push(s.last())
        } else {
            rest
        }
    }
}

/// The map that a sequence of pairs makes, a later pair winning.
pub open spec fn pairs_to_map(pairs: Seq<(Seq<char>, Seq<char>)>) -> Map<Seq<char>, Seq<char>>
    decreases pairs.len(),
{
    if pairs.len() == 0 {
        Map::empty()
    } else {
        pairs_to_map(pairs.drop_last()).insert(pairs.last().0, pairs.last().1)
    }
}

/// The pairs of the well-formed tag lines of a captured output.
pub open spec fn output_pairs(text: Seq<char>) -> Seq<(Seq<char>, Seq<char>)> {
    tag_pairs(split_lines(text))
}

/// The keys that two or more well-formed tag lines of an output name.
pub open spec fn duplicate_tag_keys(text: Seq<char>) -> Seq<Seq<char>> {
    second_occurrences(keys_of(output_pairs(text)))
}

/// The payloads of the malformed tag lines of an output.
pub open spec fn output_warnings(text: Seq<char>) -> Seq<Seq<char>> {
    malformed_payloads(split_lines(text))
}

/// Whether every key and every value of `pairs` is non-empty.
pub open spec fn parts_nonempty(pairs: Seq<(Seq<char>, Seq<char>)>) -> bool {
    forall|i: int| 0 <= i < pairs.len() ==> (#[trigger] pairs[i]).0.len() > 0 && pairs[i].1.len() > 0
}

/// The views of a vector of strings.
pub open spec fn string_views(v: Seq<String>) -> Seq<Seq<char>> {
    v.map_values(|s: String| s@)
}

/// The views of a vector of string pairs.
pub open spec fn pair_views(v: Seq<(String, String)>) -> Seq<(Seq<char>, Seq<char>)> {
    v.map_values(|p: (String, String)| (p.0@, p.1@))
}

/// A `count_of` of zero means absence; in a sequence without repeats no
/// value occurs twice.
pub proof fn lemma_count_of<A>(s: Seq<A>, x: A)
    ensures
        count_of(s, x) == 0 <==> !s.contains(x),
        s.no_duplicates() ==> count_of(s, x) <= 1,
    decreases s.len(),
{
    if s.len() > 0 {
        let p = s.drop_last();
        lemma_count_of(p, x);
        if p.contains(x) {
            let k = choose|k: int| 0 <= k < p.len() && p[k] == x;
            assert(s[k] == x);
        }
        if s.contains(x) && s.last() != x {
            let k = choose|k: int| 0 <= k < s.len() && s[k] == x;
            assert(p[k] == x);
        }
        if s.no_duplicates() {
            assert(p.no_duplicates()) by {
                assert forall|i: int, j: int|
                    0 <= i < p.len() && 0 <= j < p.len() && i != j implies p[i] != p[j] by {
                    assert(s[i] == p[i] && s[j] == p[j]);
                }
            }
            if s.last() == x && p.contains(x) {
                let k = choose|k: int| 0 <= k < p.len() && p[k] == x;
                assert(s[k] == s[s.len() - 1]);
            }
        }
    }
}

/// A sequence in which nothing occurs a second time has no repeats.
pub proof fn lemma_no_second_occurrence<A>(s: Seq<A>)
    requires
        second_occurrences(s).len() == 0,
    ensures
        s.no_duplicates(),
    decreases s.len(),
{
    if s.len() > 0 {
        let p = s.drop_last();
        let x = s.last();
        lemma_no_second_occurrence(p);
        lemma_count_of(p, x);
        assert forall|i: int, j: int|
            0 <= i < s.len() && 0 <= j < s.len() && i != j implies s[i] != s[j] by {
            if i < p.len() && j < p.len() {
                assert(p[i] != p[j]);
            } else if i == p.len() {
                assert(p[j] == s[j]);
            } else {
                assert(p[i] == s[i]);
            }
        }
    }
}

/// With distinct keys, the map of a sequence of pairs holds exactly its
/// pairs.
pub proof fn lemma_pairs_to_map(pairs: Seq<(Seq<char>, Seq<char>)>)
    requires
        keys_of(pairs).no_duplicates(),
    ensures
        forall|k: Seq<char>|
            #![auto]
            pairs_to_map(pairs).contains_key(k) <==> keys_of(pairs).contains(k),
        forall|i: int|
            #![auto]
            0 <= i < pairs.len() ==> pairs_to_map(pairs)[pairs[i].0] == pairs[i].1,
        pairs_to_map(pairs).dom().len() == pairs.len(),
        pairs_to_map(pairs).dom().finite(),
    decreases pairs.len(),
{
    if pairs.len() > 0 {
        let p = pairs.drop_last();
        let last = pairs.last();
        assert(keys_of(p) =~= keys_of(pairs).drop_last());
        assert(keys_of(p).no_duplicates()) by {
            assert forall|i: int, j: int|
                0 <= i < p.len() && 0 <= j < p.len() && i != j implies keys_of(p)[i] != keys_of(
                p,
            )[j] by {
                assert(keys_of(pairs)[i] != keys_of(pairs)[j]);
            }
        }
        lemma_pairs_to_map(p);
        assert(!keys_of(p).contains(last.0)) by {
            if keys_of(p).contains(last.0) {
                let k = choose|k: int| 0 <= k < keys_of(p).len() && keys_of(p)[k] == last.0;
                assert(keys_of(pairs)[k] == keys_of(pairs)[pairs.len() - 1]);
            }
        }
        assert forall|k: Seq<char>|
            #![auto]
            pairs_to_map(pairs).contains_key(k) <==> keys_of(pairs).contains(k) by {
            if keys_of(pairs).contains(k) && k != last.0 {
                let j = choose|j: int| 0 <= j < keys_of(pairs).len() && keys_of(pairs)[j] == k;
                assert(keys_of(p)[j] == k);
            }
            if keys_of(p).contains(k) {
                let j = choose|j: int| 0 <= j < keys_of(p).len() && keys_of(p)[j] == k;
                assert(keys_of(pairs)[j] == k);
            }
            assert(keys_of(pairs)[pairs.len() - 1] == last.0);
        }
        assert forall|i: int|
            #![auto]
            0 <= i < pairs.len() implies pairs_to_map(pairs)[pairs[i].0] == pairs[i].1 by {
            if i < p.len() {
                assert(p[i] == pairs[i]);
                assert(keys_of(p)[i] == p[i].0);
                assert(keys_of(p).contains(p[i].0));
            }
        }
    }
}

/// Number of characters in the tag prefix.
const TAG_PREFIX_LEN: usize = 9;

/// Whether a line starts with the tag prefix.
fn has_tag_prefix(line: &Vec<char>) -> (b: bool)
    ensures
        b == is_tag_line(line@),
{
    let prefix: Vec<char> = vec!['@', 'b', 'e', 'n', 'c', 'h', 'i', 'e', ' '];
    assert(prefix@ =~= tag_prefix());
    if line.len() < prefix.len() {
        return false;
    }
    let mut i: usize = 0;
    while i < prefix.len()
        invariant
            i <= prefix.len() <= line.len(),
            prefix@ == tag_prefix(),
            forall|j: int| 0 <= j < i ==> line@[j] == prefix@[j],
        decreases prefix.len() - i,
    {
        if line[i] != prefix[i] {
            assert(line@.subrange(0, tag_prefix().len() as int)[i as int] != tag_prefix()[i as int]);
            return false;
        }
        i = i + 1;
    }
    assert(line@.subrange(0, tag_prefix().len() as int) =~= tag_prefix());
    true
}

/// The position of the separator of `cs[start..]`, where that part has the
/// shape `key=value`.
fn key_value_separator(cs: &Vec<char>, start: usize) -> (r: Option<usize>)
    requires
        start <= cs.len(),
    ensures
        r is Some <==> is_key_value(cs@.subrange(start as int, cs.len() as int)),
        r matches Some(p) ==> start <= p && p - start == separator_index(
            cs@.subrange(start as int, cs.len() as int),
        ),
{
    let ghost kv = cs@.subrange(start as int, cs.len() as int);
    let mut found: Option<usize> = None;
    let mut i: usize = start;
    while i < cs.len()
        invariant
            start <= i <= cs.len(),
            kv == cs@.subrange(start as int, cs.len() as int),
            found matches Some(p) ==> start <= p < i && cs@[p as int] == '=' && forall|j: int|
                start <= j < i && j != p ==> cs@[j] != '=',
            found is None ==> forall|j: int| start <= j < i ==> cs@[j] != '=',
        decreases cs.len() - i,
    {
        if cs[i] == '=' {
            if let Some(p) = found {
                assert(!is_key_value(kv)) by {
                    if is_key_value(kv) {
                        let k = choose|k: int| is_separator(kv, k);
                        assert(kv[p - start] == '=' && kv[i - start] == '=');
                    }
                }
                return None;
            }
            found = Some(i);
        }
        i = i + 1;
    }
    match found {
        None => {
            assert(!is_key_value(kv)) by {
                if is_key_value(kv) {
                    let k = choose|k: int| is_separator(kv, k);
                    assert(kv[k] == cs@[start + k]);
                }
            }
            None
        },
        Some(p) => {
            if p > start && p + 1 < cs.len() {
                assert(is_separator(kv, p - start)) by {
                    assert forall|j: int| 0 <= j < kv.len() && j != p - start implies kv[j]
                        != '=' by {
                        assert(kv[j] == cs@[start + j]);
                    }
                }
                let ghost k = separator_index(kv);
                assert(k == p - start) by {
                    assert(is_separator(kv, k));
                    assert(kv[p - start] == '=');
                }
                Some(p)
            } else {
                assert(!is_key_value(kv)) by {
                    if is_key_value(kv) {
                        let k = choose|k: int| is_separator(kv, k);
                        assert(kv[k] == cs@[start + k]);
                        assert(kv[p - start] == '=');
                    }
                }
                None
            }
        },
    }
}

/// Takes one line of output: a well-formed tag line adds its pair, a
/// malformed one its payload as a warning, any other line nothing.
fn collect_line(line: &Vec<char>, pairs: &mut Vec<(String, String)>, warnings: &mut Vec<String>)
    ensures
        pair_views(final(pairs)@) == if is_tag_line(line@) && is_key_value(payload(line@)) {
            pair_views(old(pairs)@).push(split_pair(payload(line@)))
        } else {
            pair_views(old(pairs)@)
        },
        string_views(final(warnings)@) == if is_tag_line(line@) && !is_key_value(payload(line@)) {
            string_views(old(warnings)@).push(payload(line@))
        } else {
            string_views(old(warnings)@)
        },
{
    if has_tag_prefix(line) {
        let ghost kv = payload(line@);
        match key_value_separator(line, TAG_PREFIX_LEN) {
            Some(p) => {
                let key = string_from_chars(line, TAG_PREFIX_LEN, p);
                let value = string_from_chars(line, p + 1, line.len());
                proof {
                    let i = separator_index(kv);
                    assert(key@ =~= kv.subrange(0, i));
                    assert(value@ =~= kv.subrange(i + 1, kv.len() as int));
                }
                let ghost before = pairs@;
                pairs.push((key, value));
                assert(pair_views(pairs@) =~= pair_views(before).push(split_pair(kv)));
            },
            None => {
                let rest = string_from_chars(line, TAG_PREFIX_LEN, line.len());
                let ghost before = warnings@;
                warnings.push(rest);
                assert(string_views(warnings@) =~= string_views(before).push(kv));
            },
        }
    }
}

/// Relies on itertools' `duplicates_by`, keyed by the first element of each
/// pair: it yields an item when its key is met for the second time, in the
/// order of the input.
#[verifier::external_body]
fn duplicate_keys(pairs: &Vec<(String, String)>) -> (r: Vec<String>)
    ensures
        string_views(r@) == second_occurrences(keys_of(pair_views(pairs@))),
{
    pairs.iter().duplicates_by(|(key, _)| key).map(|(key, _)| key.clone()).collect()
}

/// Checks that `v` has the shape `key=value`: one `=`, with a non-empty
/// key before it and a non-empty value after it.
pub fn is_key_value_pair(v: &str) -> (r: Result<(), String>)
    ensures
        r is Ok <==> is_key_value(v@),
        r matches Err(m) ==> m@ == "tag has to be a <key>=<value> pair"@,
{
    let cs = chars_of(v);
    assert(cs@.subrange(0, cs@.len() as int) =~= v@);
    match key_value_separator(&cs, 0) {
        Some(_) => Ok(()),
        None => Err(String::from_str("tag has to be a <key>=<value> pair")),
    }
}

/// Splits a `key=value` text into its key and its value.
pub fn parse_key_value_pair(v: &str) -> (r: (String, String))
    requires
        is_key_value(v@),
    ensures
        (r.0@, r.1@) == split_pair(v@),
{
    let cs = chars_of(v);
    assert(cs@.subrange(0, cs@.len() as int) =~= v@);
    let p: usize = match key_value_separator(&cs, 0) {
        Some(p) => p,
        None => 0,
    };
    let key = string_from_chars(&cs, 0, p);
    let value = string_from_chars(&cs, p + 1, cs.len());
    (key, value)
}

/// The lines of any text are at least one.
pub proof fn lemma_split_lines_len(text: Seq<char>)
    ensures
        split_lines(text).len() >= 1,
    decreases text.len(),
{
    if text.len() > 0 {
        lemma_split_lines_len(text.drop_last());
    }
}

/// Appending characters other than `'\n'` lengthens the last line only.
pub proof fn lemma_split_lines_extend(x: Seq<char>, b: Seq<char>)
    requires
        !b.contains('\n'),
    ensures
        split_lines(x + b) == split_lines(x).update(
            split_lines(x).len() - 1,
            split_lines(x).last() + b,
        ),
    decreases b.len(),
{
    lemma_split_lines_len(x);
    let lines = split_lines(x);
    if b.len() == 0 {
        assert(x + b =~= x);
        assert(lines.update(lines.len() - 1, lines.last() + b) =~= lines);
    } else {
        let b0 = b.drop_last();
        assert(!b0.contains('\n')) by {
            if b0.contains('\n') {
                let k = choose|k: int| 0 <= k < b0.len() && b0[k] == '\n';
                assert(b[k] == '\n');
            }
        }
        lemma_split_lines_extend(x, b0);
        assert((x + b).drop_last() =~= x + b0);
        assert(b.last() != '\n') by {
            assert(b[b.len() - 1] == b.last());
        }
        let prev = lines.update(lines.len() - 1, lines.last() + b0);
        assert(prev.update(prev.len() - 1, prev.last().push(b.last())) =~= lines.update(
            lines.len() - 1,
            lines.last() + b,
        )) by {
            assert((lines.last() + b0).push(b.last()) =~= lines.last() + b);
        }
    }
}

/// A line without `'\n'`, ended by `'\n'`, follows the lines before it and
/// leaves an empty last line.
pub proof fn lemma_split_lines_add_line(x: Seq<char>, line: Seq<char>)
    requires
        !line.contains('\n'),
        split_lines(x).last() == Seq::<char>::empty(),
    ensures
        split_lines((x + line).push('\n')) == split_lines(x).drop_last().push(line).push(
            Seq::<char>::empty(),
        ),
{
    lemma_split_lines_len(x);
    lemma_split_lines_extend(x, line);
    let lines = split_lines(x);
    assert((x + line).push('\n').drop_last() =~= x + line);
    assert(lines.last() + line =~= line);
    assert(lines.update(lines.len() - 1, line) =~= lines.drop_last().push(line));
}

/// The shape `key=value`, with `=` in neither part, splits into that key
/// and that value.
pub proof fn lemma_key_value_parts(key: Seq<char>, value: Seq<char>)
    requires
        key.len() > 0,
        value.len() > 0,
        !key.contains('='),
        !value.contains('='),
    ensures
        is_key_value(key + seq!['='] + value),
        split_pair(key + seq!['='] + value) == (key, value),
{
    let kv = key + seq!['='] + value;
    let n = key.len() as int;
    assert(is_separator(kv, n)) by {
        assert forall|j: int| 0 <= j < kv.len() && j != n implies kv[j] != '=' by {
            if j < n {
                assert(kv[j] == key[j]);
            } else {
                assert(kv[j] == value[j - n - 1]);
            }
        }
    }
    let i = separator_index(kv);
    assert(is_separator(kv, i));
    assert(i == n) by {
        assert(kv[n] == '=');
    }
    assert(kv.subrange(0, n) =~= key);
    assert(kv.subrange(n + 1, kv.len() as int) =~= value);
}

/// A line made of the tag prefix and a payload is a tag line with that
/// payload.
pub proof fn lemma_tag_line_payload(p: Seq<char>)
    ensures
        is_tag_line(tag_prefix() + p),
        payload(tag_prefix() + p) == p,
{
    let line = tag_prefix() + p;
    assert(line.subrange(0, tag_prefix().len() as int) =~= tag_prefix());
    assert(payload(line) =~= p);
}

/// The text of one tag line `@benchie key=value`, ended by a newline.
pub open spec fn tag_line(key: Seq<char>, value: Seq<char>) -> Seq<char> {
    tag_prefix() + (key + seq!['='] + value)
}

/// Whether a part of a tag holds neither `=` nor a line break, and is not
/// empty.
pub open spec fn is_tag_part(s: Seq<char>) -> bool {
    s.len() > 0 && !s.contains('=') && !s.contains('\n')
}

/// No line break in a tag line.
proof fn lemma_tag_line_unbroken(key: Seq<char>, value: Seq<char>)
    requires
        is_tag_part(key),
        is_tag_part(value),
    ensures
        !tag_line(key, value).contains('\n'),
{
    let line = tag_line(key, value);
    let n = tag_prefix().len() as int;
    let m = key.len() as int;
    if line.contains('\n') {
        let k = choose|k: int| 0 <= k < line.len() && line[k] == '\n';
        if k < n {
            assert(line[k] == tag_prefix()[k]);
        } else if k < n + m {
            assert(line[k] == key[k - n]);
        } else if k == n + m {
            assert(line[k] == '=');
        } else {
            assert(line[k] == value[k - n - m - 1]);
        }
    }
}

/// A program that prints one tag line yields exactly that tag, keeps the
/// line as it was written, and is warned of nothing.
pub proof fn lemma_tag_round_trip(key: Seq<char>, value: Seq<char>)
    requires
        is_tag_part(key),
        is_tag_part(value),
    ensures
        split_lines(tag_line(key, value).push('\n')) == seq![
            tag_line(key, value),
            Seq::<char>::empty(),
        ],
        output_pairs(tag_line(key, value).push('\n')) == seq![(key, value)],
        pairs_to_map(output_pairs(tag_line(key, value).push('\n'))) == map![key => value],
        duplicate_tag_keys(tag_line(key, value).push('\n')).len() == 0,
        output_warnings(tag_line(key, value).push('\n')).len() == 0,
{
    reveal_with_fuel(tag_pairs, 3);
    reveal_with_fuel(malformed_payloads, 3);
    reveal_with_fuel(pairs_to_map, 2);
    reveal_with_fuel(second_occurrences, 2);
    let line = tag_line(key, value);
    let text = line.push('\n');
    lemma_tag_line_unbroken(key, value);
    lemma_split_lines_add_line(Seq::<char>::empty(), line);
    assert(Seq::<char>::empty() + line =~= line);
    let lines = seq![line, Seq::<char>::empty()];
    assert(split_lines(text) =~= lines);
    lemma_tag_line_payload(key + seq!['='] + value);
    lemma_key_value_parts(key, value);
    assert(lines.drop_last() =~= seq![line]);
    assert(seq![line].drop_last() =~= Seq::<Seq<char>>::empty());
    assert(output_pairs(text) =~= seq![(key, value)]);
    let pairs = seq![(key, value)];
    assert(pairs.drop_last() =~= Seq::<(Seq<char>, Seq<char>)>::empty());
    assert(pairs_to_map(pairs) =~= map![key => value]);
    let keys = keys_of(pairs);
    assert(keys =~= seq![key]);
    assert(keys.drop_last() =~= Seq::<Seq<char>>::empty());
    assert(output_warnings(text) =~= Seq::<Seq<char>>::empty());
}

/// Two tag lines with the same key make the extraction fail on that key,
/// and on no other.
pub proof fn lemma_duplicate_key_refused(key: Seq<char>, first: Seq<char>, second: Seq<char>)
    requires
        is_tag_part(key),
        is_tag_part(first),
        is_tag_part(second),
    ensures
        duplicate_tag_keys(
            (tag_line(key, first).push('\n') + tag_line(key, second)).push('\n'),
        ) == seq![key],
{
    reveal_with_fuel(tag_pairs, 4);
    reveal_with_fuel(count_of, 2);
    reveal_with_fuel(second_occurrences, 3);
    let l1 = tag_line(key, first);
    let l2 = tag_line(key, second);
    let x = l1.push('\n');
    let text = (x + l2).push('\n');
    lemma_tag_line_unbroken(key, first);
    lemma_tag_line_unbroken(key, second);
    lemma_split_lines_add_line(Seq::<char>::empty(), l1);
    assert(Seq::<char>::empty() + l1 =~= l1);
    assert(split_lines(x) =~= seq![l1, Seq::<char>::empty()]);
    lemma_split_lines_add_line(x, l2);
    let lines = seq![l1, l2, Seq::<char>::empty()];
    assert(split_lines(text) =~= lines);
    lemma_tag_line_payload(key + seq!['='] + first);
    lemma_tag_line_payload(key + seq!['='] + second);
    lemma_key_value_parts(key, first);
    lemma_key_value_parts(key, second);
    assert(lines.drop_last() =~= seq![l1, l2]);
    assert(seq![l1, l2].drop_last() =~= seq![l1]);
    assert(seq![l1].drop_last() =~= Seq::<Seq<char>>::empty());
    let pairs = seq![(key, first), (key, second)];
    assert(output_pairs(text) =~= pairs);
    let keys = keys_of(pairs);
    assert(keys =~= seq![key, key]);
    assert(keys.drop_last() =~= seq![key]);
    assert(seq![key].drop_last() =~= Seq::<Seq<char>>::empty());
    assert(count_of(seq![key], key) == 1);
    assert(second_occurrences(seq![key]) =~= Seq::<Seq<char>>::empty());
    assert(second_occurrences(keys) =~= seq![key]);
}

/// A tag line whose payload is not `key=value` does not stop the
/// extraction: it yields no tag, and its payload is kept as a warning.
pub proof fn lemma_malformed_line_warned(p: Seq<char>)
    requires
        !p.contains('\n'),
        !is_key_value(p),
    ensures
        output_pairs((tag_prefix() + p).push('\n')).len() == 0,
        duplicate_tag_keys((tag_prefix() + p).push('\n')).len() == 0,
        output_warnings((tag_prefix() + p).push('\n')) == seq![p],
{
    reveal_with_fuel(tag_pairs, 3);
    reveal_with_fuel(malformed_payloads, 3);
    let line = tag_prefix() + p;
    let text = line.push('\n');
    assert(!line.contains('\n')) by {
        if line.contains('\n') {
            let k = choose|k: int| 0 <= k < line.len() && line[k] == '\n';
            if k < tag_prefix().len() {
                assert(line[k] == tag_prefix()[k]);
            } else {
                assert(line[k] == p[k - tag_prefix().len()]);
            }
        }
    }
    lemma_split_lines_add_line(Seq::<char>::empty(), line);
    assert(Seq::<char>::empty() + line =~= line);
    let lines = seq![line, Seq::<char>::empty()];
    assert(split_lines(text) =~= lines);
    lemma_tag_line_payload(p);
    assert(lines.drop_last() =~= seq![line]);
    assert(seq![line].drop_last() =~= Seq::<Seq<char>>::empty());
    assert(output_pairs(text) =~= Seq::<(Seq<char>, Seq<char>)>::empty());
    assert(keys_of(output_pairs(text)) =~= Seq::<Seq<char>>::empty());
    assert(output_warnings(text) =~= seq![p]);
}

/// Extraction depends on the text alone: feeding the same text twice gives
/// the same pairs, the same duplicate keys and the same warnings.
pub proof fn lemma_extraction_repeatable(a: Seq<char>, b: Seq<char>)
    requires
        a == b,
    ensures
        output_pairs(a) == output_pairs(b),
        pairs_to_map(output_pairs(a)) == pairs_to_map(output_pairs(b)),
        duplicate_tag_keys(a) == duplicate_tag_keys(b),
        output_warnings(a) == output_warnings(b),
{
}

/// The key and the value of a `key=value` text are non-empty.
pub proof fn lemma_split_pair_nonempty(kv: Seq<char>)
    requires
        is_key_value(kv),
    ensures
        split_pair(kv).0.len() > 0,
        split_pair(kv).1.len() > 0,
{
    assert(is_separator(kv, separator_index(kv)));
}

/// The pairs of well-formed tag lines have non-empty keys and values.
pub proof fn lemma_tag_pairs_nonempty(lines: Seq<Seq<char>>)
    ensures
        parts_nonempty(tag_pairs(lines)),
    decreases lines.len(),
{
    if lines.len() > 0 {
        lemma_tag_pairs_nonempty(lines.drop_last());
        let line = lines.last();
        if is_tag_line(line) && is_key_value(payload(line)) {
            lemma_split_pair_nonempty(payload(line));
        }
    }
}

/// Tags collected from one output: keys, each once, with their values.
pub struct TagMap {
    entries: Vec<(String, String)>,
}

impl TagMap {
    #[verifier::type_invariant]
    spec fn keys_distinct(self) -> bool {
        &&& keys_of(pair_views(self.entries@)).no_duplicates()
        &&& parts_nonempty(pair_views(self.entries@))
    }

    /// The pairs of the map, in the order in which they were collected.
    pub closed spec fn pairs(&self) -> Seq<(Seq<char>, Seq<char>)> {
        pair_views(self.entries@)
    }

    /// The map from key to value.
    pub open spec fn as_map(&self) -> Map<Seq<char>, Seq<char>> {
        pairs_to_map(self.pairs())
    }

    /// Number of tags.
    pub fn len(&self) -> (n: usize)
        ensures
            n == self.pairs().len(),
            n == self.as_map().dom().len(),
    {
        proof {
            use_type_invariant(self);
            lemma_pairs_to_map(self.pairs());
        }
        self.entries.len()
    }

    /// Whether the map holds no tag.
    pub fn is_empty(&self) -> (b: bool)
        ensures
            b <==> self.pairs().len() == 0,
    {
        self.entries.len() == 0
    }

    /// The key and value pairs, in the order in which they were collected.
    pub fn entries(&self) -> (r: &Vec<(String, String)>)
        ensures
            pair_views(r@) == self.pairs(),
            keys_of(self.pairs()).no_duplicates(),
            parts_nonempty(self.pairs()),
    {
        proof {
            use_type_invariant(self);
        }
        &self.entries
    }

    /// The value of `key`, if the map holds it.
    pub fn get(&self, key: &str) -> (r: Option<&String>)
        ensures
            r is Some <==> self.as_map().contains_key(key@),
            r matches Some(v) ==> v@ == self.as_map()[key@],
    {
        let wanted = key.to_owned();
        let mut i: usize = 0;
        while i < self.entries.len()
            invariant
                i <= self.entries.len(),
                wanted@ == key@,
                forall|j: int| 0 <= j < i ==> self.pairs()[j].0 != key@,
            decreases self.entries.len() - i,
        {
            if self.entries[i].0 == wanted {
                proof {
                    use_type_invariant(self);
                    lemma_pairs_to_map(self.pairs());
                    assert(self.pairs()[i as int].0 == key@);
                    assert(keys_of(self.pairs())[i as int] == key@);
                    assert(keys_of(self.pairs()).contains(key@));
                }
                return Some(&self.entries[i].1);
            }
            i = i + 1;
        }
        proof {
            use_type_invariant(self);
            lemma_pairs_to_map(self.pairs());
        }
        assert(!keys_of(self.pairs()).contains(key@)) by {
            if keys_of(self.pairs()).contains(key@) {
                let j = choose|j: int|
                    0 <= j < keys_of(self.pairs()).len() && keys_of(self.pairs())[j] == key@;
                assert(self.pairs()[j].0 == key@);
            }
        }
        None
    }

    /// The keys of `keys` that the map holds too, in their order.
    pub fn shared_keys(&self, keys: &Vec<String>) -> (r: Vec<String>)
        ensures
            string_views(r@) == string_views(keys@).filter(|k: Seq<char>| self.as_map().contains_key(k)),
    {
        let ghost views = string_views(keys@);
        let mut r: Vec<String> = Vec::new();
        let mut i: usize = 0;
        assert(views.take(0).filter(|k: Seq<char>| self.as_map().contains_key(k)) =~= Seq::<Seq<char>>::empty());
        while i < keys.len()
            invariant
                i <= keys.len(),
                views == string_views(keys@),
                string_views(r@) == views.take(i as int).filter(|k: Seq<char>| self.as_map().contains_key(k)),
            decreases keys.len() - i,
        {
            proof {
                let f = |k: Seq<char>| self.as_map().contains_key(k);
                assert(views.take(i + 1).drop_last() =~= views.take(i as int));
                views.take(i as int).lemma_filter_push(views[i as int], f);
                assert(views.take(i as int).push(views[i as int]) =~= views.take(i + 1));
            }
            if self.contains_key(keys[i].as_str()) {
                let ghost before = r@;
                r.push(keys[i].clone());
                assert(string_views(r@) =~= string_views(before).push(keys@[i as int]@));
            }
            i = i + 1;
        }
        assert(views.take(keys.len() as int) =~= views);
        r
    }

    /// Whether the map holds `key`.
    pub fn contains_key(&self, key: &str) -> (b: bool)
        ensures
            b <==> self.as_map().contains_key(key@),
    {
        self.get(key).is_some()
    }
}

/// Tags collected from one output, with the payloads of the tag lines that
/// were not of the shape `key=value` and were dropped.
pub struct TagExtraction {
    pub tags: TagMap,
    pub warnings: Vec<String>,
}

/// Collects the tags of a captured output.
///
/// Every line that starts with `@benchie ` is a tag line. One whose rest
/// has the shape `key=value` gives a pair; any other is dropped and its rest
/// kept as a warning. When two or more pairs share a key the extraction
/// fails and names each such key once; no map is returned then.
pub fn parse_tags_from_stdout(output: &str) -> (r: Result<TagExtraction, ExecutionError>)
    ensures
        r is Ok <==> duplicate_tag_keys(output@).len() == 0,
        r matches Ok(x) ==> x.tags.pairs() == output_pairs(output@) && string_views(x.warnings@)
            == output_warnings(output@),
        r matches Err(e) ==> e matches ExecutionError::DuplicateTagKey(keys) && string_views(
            keys@,
        ) == duplicate_tag_keys(output@),
{
    let chars = chars_of(output);
    let mut pairs: Vec<(String, String)> = Vec::new();
    let mut warnings: Vec<String> = Vec::new();
    let mut line: Vec<char> = Vec::new();
    let ghost mut done: Seq<Seq<char>> = seq![];
    assert(pair_views(pairs@) =~= tag_pairs(done));
    assert(string_views(warnings@) =~= malformed_payloads(done));
    assert(chars@.subrange(0, 0) =~= Seq::<char>::empty());
    assert(split_lines(chars@.subrange(0, 0)) =~= done.push(line@));
    let mut i: usize = 0;
    while i < chars.len()
        invariant
            i <= chars.len(),
            chars@ == output@,
            split_lines(chars@.subrange(0, i as int)) == done.push(line@),
            pair_views(pairs@) == tag_pairs(done),
            string_views(warnings@) == malformed_payloads(done),
        decreases chars.len() - i,
    {
        let c = chars[i];
        let ghost t = chars@.subrange(0, i + 1);
        assert(t.drop_last() =~= chars@.subrange(0, i as int));
        assert(t.last() == c);
        if c == '\n' {
            collect_line(&line, &mut pairs, &mut warnings);
            proof {
                let lines = done.push(line@);
                assert(lines.drop_last() =~= done);
                done = lines;
            }
            line = Vec::new();
            assert(split_lines(t) =~= done.push(line@));
        } else {
            let ghost before = line@;
            line.push(c);
            assert(split_lines(t) =~= done.push(line@)) by {
                let prev = done.push(before);
                assert(prev.update(prev.len() - 1, prev.last().push(c)) =~= done.push(line@));
            }
        }
        i = i + 1;
    }
    collect_line(&line, &mut pairs, &mut warnings);
    proof {
        let lines = done.push(line@);
        assert(chars@.subrange(0, chars.len() as int) =~= chars@);
        assert(lines.drop_last() =~= done);
    }
    let dups = duplicate_keys(&pairs);
    if dups.len() > 0 {
        Err(ExecutionError::DuplicateTagKey(dups))
    } else {
        proof {
            lemma_no_second_occurrence(keys_of(pair_views(pairs@)));
            lemma_tag_pairs_nonempty(split_lines(output@));
        }
        Ok(TagExtraction { tags: TagMap { entries: pairs }, warnings })
    }
}

} // verus!
