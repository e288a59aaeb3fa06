//! Boyer-Moore search for every non-overlapping occurrence of a byte pattern.

use vstd::prelude::*;

verus! {

/// Number of distinct byte values, and so the length of a bad-character table.
pub const BYTE_LEN: usize = 256;

/// `pattern` stands in `text` at `offset`: `text[offset..offset + pattern.len()] == pattern`.
pub open spec fn occurs_at(text: Seq<u8>, pattern: Seq<u8>, offset: int) -> bool {
    &&& 0 <= offset
    &&& offset + pattern.len() <= text.len()
    &&& text.subrange(offset, offset + pattern.len()) =~= pattern
}

/// `pattern` occurs somewhere in `text`.
pub open spec fn occurs_in(text: Seq<u8>, pattern: Seq<u8>) -> bool {
    exists|offset: int| occurs_at(text, pattern, offset)
}

/// No occurrence of `pattern` in `text` begins at an offset from `from` up to,
/// but not including, `to`.
pub open spec fn none_between(text: Seq<u8>, pattern: Seq<u8>, from: int, to: int) -> bool {
    forall|offset: int| from <= offset < to ==> !occurs_at(text, pattern, offset)
}

/// No occurrence of `pattern` in `text` begins at `from` or after it.
pub open spec fn none_from(text: Seq<u8>, pattern: Seq<u8>, from: int) -> bool {
    forall|offset: int| from <= offset ==> !occurs_at(text, pattern, offset)
}

/// `byte` stands nowhere in `pattern`.
pub open spec fn absent(pattern: Seq<u8>, byte: u8) -> bool {
    forall|k: int| 0 <= k < pattern.len() ==> pattern[k] != byte
}

/// `index` is the rightmost position of `byte` in `pattern`.
pub open spec fn is_last_index(pattern: Seq<u8>, byte: u8, index: int) -> bool {
    &&& 0 <= index < pattern.len()
    &&& pattern[index] == byte
    &&& forall|k: int| index < k < pattern.len() ==> pattern[k] != byte
}

/// `table` is the bad-character table of `pattern`: for each byte value the
/// distance from its rightmost occurrence to the pattern's last position, or
/// the pattern's length where the byte does not occur.
pub open spec fn is_bad_character_table(pattern: Seq<u8>, table: Seq<usize>) -> bool {
    &&& table.len() == BYTE_LEN
    &&& forall|byte: u8| absent(pattern, byte) ==> #[trigger] table[byte as int] == pattern.len()
    &&& forall|byte: u8, index: int| #[trigger]
        is_last_index(pattern, byte, index) ==> table[byte as int] == pattern.len() - 1 - index
}

/// Builds the bad-character table of `pattern`.
pub fn bad_character_table(pattern: &[u8]) -> (table: [usize; BYTE_LEN])
    ensures
        is_bad_character_table(pattern@, table@),
        forall|byte: u8|
            absent(pattern@, byte) ==> #[trigger] table@[byte as int] == pattern@.len(),
{
    let patlen = pattern.len();
    let mut table = [patlen; BYTE_LEN];
    let mut i: usize = 0;
    while i < patlen
        invariant
            patlen == pattern@.len(),
            i <= patlen,
            forall|byte: u8|
                absent(pattern@.take(i as int), byte) ==> #[trigger] table@[byte as int] == patlen,
            forall|byte: u8, index: int| #[trigger]
                is_last_index(pattern@.take(i as int), byte, index) ==> table@[byte as int]
                    == patlen - 1 - index,
        decreases patlen - i,
    {
        let val = pattern[i];
        let ghost before = table@;
        let ghost shorter = pattern@.take(i as int);
        let ghost longer = pattern@.take(i + 1);
        table[val as usize] = patlen - 1 - i;
        assert forall|byte: u8| absent(longer, byte) implies #[trigger] table@[byte as int]
            == patlen by {
            assert(longer[i as int] != byte);
            assert forall|k: int| 0 <= k < shorter.len() implies shorter[k] != byte by {
                assert(longer[k] != byte);
            }
        }
        assert forall|byte: u8, index: int| #[trigger]
            is_last_index(longer, byte, index) implies table@[byte as int] == patlen - 1
            - index by {
            if index < i {
                assert(longer[i as int] != byte);
                assert forall|k: int| index < k < shorter.len() implies shorter[k] != byte by {
                    assert(longer[k] != byte);
                }
                assert(is_last_index(shorter, byte, index));
            }
        }
        i += 1;
    }
    assert(pattern@.take(patlen as int) =~= pattern@);
    table
}

/// `word[from..]` is also the beginning of `word`.
pub open spec fn suffix_is_prefix(word: Seq<u8>, from: int) -> bool {
    forall|k: int| from <= k < word.len() ==> word[k - from] == #[trigger] word[k]
}

/// `length` is the number of bytes by which `word[..=position]` and `word`
/// agree at their right ends: the last `length` bytes are the same, and the
/// byte before them, where `word[..=position]` has one, is not.
pub open spec fn is_common_suffix_length(word: Seq<u8>, position: int, length: int) -> bool {
    &&& 0 <= length <= position + 1
    &&& forall|k: int|
        word.len() - length <= k < word.len() ==> word[k - (word.len() - 1 - position)]
            == #[trigger] word[k]
    &&& length <= position ==> word[position - length] != word[word.len() - 1 - length]
}

/// After `pattern[mismatch + 1..]` matched the text and `pattern[mismatch]`
/// did not, the pattern moved right by `shift` positions contradicts nothing
/// that the comparison found: where the moved pattern overlaps the matched
/// suffix it repeats it, and under the mismatch it holds another byte.
pub open spec fn shift_agrees(pattern: Seq<u8>, mismatch: int, shift: int) -> bool {
    &&& forall|k: int|
        mismatch < k < pattern.len() && shift <= k ==> pattern[k - shift] == #[trigger] pattern[k]
    &&& shift <= mismatch ==> pattern[mismatch - shift] != pattern[mismatch]
}

/// `shift` is the least move of at least one position that agrees with a
/// mismatch at `mismatch`.
pub open spec fn is_good_suffix_shift(pattern: Seq<u8>, mismatch: int, shift: int) -> bool {
    &&& 1 <= shift
    &&& shift_agrees(pattern, mismatch, shift)
    &&& forall|smaller: int|
        1 <= smaller < shift ==> !#[trigger] shift_agrees(pattern, mismatch, smaller)
}

/// `table` is the good-suffix table of `pattern`: one shift distance for each
/// position at which a comparison can fail.
pub open spec fn is_good_suffix_table(pattern: Seq<u8>, table: Seq<usize>) -> bool {
    &&& table.len() == pattern.len()
    &&& forall|mismatch: int|
        0 <= mismatch < pattern.len() ==> is_good_suffix_shift(
            pattern,
            mismatch,
            #[trigger] table[mismatch] as int,
        )
}

/// Tells whether `word[position..]` is also the beginning of `word`.
pub fn is_prefix(word: &[u8], position: usize) -> (prefix: bool)
    ensures
        prefix == suffix_is_prefix(word@, position as int),
{
    let len = word.len();
    let mut k: usize = position;
    while k < len
        invariant
            len == word@.len(),
            position <= k,
            forall|j: int| position <= j < k ==> word@[j - position] == #[trigger] word@[j],
        decreases len - k,
    {
        if word[k - position] != word[k] {
            return false;
        }
        k += 1;
    }
    true
}

/// Counts the bytes by which `word[..=position]` and `word` agree at their
/// right ends.
pub fn suffix_lenght(word: &[u8], position: usize) -> (count: usize)
    requires
        position < word@.len(),
    ensures
        is_common_suffix_length(word@, position as int, count as int),
{
    let len = word.len();
    let mut count: usize = 0;
    while count <= position && word[position - count] == word[len - 1 - count]
        invariant
            len == word@.len(),
            position < len,
            count <= position + 1,
            forall|k: int|
                len - count <= k < len ==> word@[k - (len - 1 - position)] == #[trigger] word@[k],
        decreases position + 1 - count,
    {
        count += 1;
    }
    count
}

/// `shift` is the least move that agrees with a mismatch at `mismatch` among
/// the moves that carry the pattern past the mismatch and those of at least
/// `bound` positions.
spec fn is_least_shift_among(pattern: Seq<u8>, mismatch: int, shift: int, bound: int) -> bool {
    &&& 1 <= shift
    &&& shift_agrees(pattern, mismatch, shift)
    &&& shift > mismatch || shift >= bound
    &&& forall|smaller: int|
        1 <= smaller < shift && (smaller > mismatch || smaller >= bound) ==> !#[trigger]
        shift_agrees(pattern, mismatch, smaller)
}

/// Builds the good-suffix table of `pattern`.
///
/// A first pass, from the right, gives each position the least shift that
/// carries the pattern past it and lays a prefix of the pattern under the
/// end of the matched suffix. A second pass lowers an entry wherever the
/// matched suffix stands again further left in the pattern, before another
/// byte.
pub fn good_suffix_table(pattern: &[u8]) -> (table: Vec<usize>)
    requires
        pattern@.len() > 0,
    ensures
        is_good_suffix_table(pattern@, table@),
{
    let patlen = pattern.len();
    let mut table: Vec<usize> = vec![0; patlen];
    let mut last_prefix_index = patlen;
    let mut i: usize = patlen;
    while i > 0
        invariant
            patlen == pattern@.len(),
            table@.len() == patlen,
            i <= patlen,
            i <= last_prefix_index <= patlen,
            suffix_is_prefix(pattern@, last_prefix_index as int),
            forall|q: int| i < q < last_prefix_index ==> !#[trigger] suffix_is_prefix(pattern@, q),
            forall|j: int|
                i <= j < patlen ==> {
                    &&& j < #[trigger] table@[j] <= patlen
                    &&& suffix_is_prefix(pattern@, table@[j] as int)
                    &&& forall|q: int|
                        j < q < table@[j] ==> !#[trigger] suffix_is_prefix(pattern@, q)
                },
        decreases i,
    {
        i -= 1;
        if is_prefix(pattern, i + 1) {
            last_prefix_index = i + 1;
        }
        table[i] = last_prefix_index;
    }
    proof {
        assert forall|j: int| 0 <= j < patlen implies is_least_shift_among(
            pattern@,
            j,
            #[trigger] table@[j] as int,
            patlen as int,
        ) by {
            let shift = table@[j] as int;
            assert forall|smaller: int|
                1 <= smaller < shift && (smaller > j || smaller >= patlen) implies !#[trigger]
            shift_agrees(pattern@, j, smaller) by {
                assert(!suffix_is_prefix(pattern@, smaller));
            }
        }
    }
    let mut i: usize = 0;
    while i < patlen - 1
        invariant
            patlen == pattern@.len(),
            table@.len() == patlen,
            0 < patlen,
            i <= patlen - 1,
            forall|j: int|
                0 <= j < patlen ==> is_least_shift_among(
                    pattern@,
                    j,
                    #[trigger] table@[j] as int,
                    patlen - i,
                ),
        decreases patlen - i,
    {
        let slen = suffix_lenght(pattern, i);
        if slen <= i {
            table[patlen - 1 - slen] = patlen - 1 - i;
        }
        proof {
            // The shift of this round agrees with a mismatch at `j` only
            // where the common suffix begins just after `j`, and that is the
            // entry that was written.
            let shift = patlen - 1 - i;
            assert forall|j: int| 0 <= j < patlen implies is_least_shift_among(
                pattern@,
                j,
                #[trigger] table@[j] as int,
                patlen - (i + 1),
            ) by {
                if shift <= j && shift_agrees(pattern@, j, shift) {
                    if slen > patlen - 1 - j {
                        assert(pattern@[j - shift] == pattern@[j]);
                    } else if slen < patlen - 1 - j {
                        let k = patlen - 1 - slen;
                        assert(pattern@[k - shift] == pattern@[k]);
                    }
                }
            }
        }
        i += 1;
    }
    table
}

/// `found` is the leftmost occurrence of `pattern` in `text`, or `None` where
/// there is no occurrence.
pub open spec fn is_first_occurrence(
    text: Seq<u8>,
    pattern: Seq<u8>,
    found: Option<usize>,
) -> bool {
    match found {
        Some(offset) => {
            &&& occurs_at(text, pattern, offset as int)
            &&& none_between(text, pattern, 0, offset as int)
        },
        None => !occurs_in(text, pattern),
    }
}

/// A byte that occurs in `pattern` has a rightmost position there.
proof fn last_index_of(pattern: Seq<u8>, byte: u8) -> (index: int)
    requires
        !absent(pattern, byte),
    ensures
        is_last_index(pattern, byte, index),
    decreases pattern.len(),
{
    if pattern.last() == byte {
        pattern.len() - 1
    } else {
        let shorter = pattern.drop_last();
        let k = choose|k: int| 0 <= k < pattern.len() && pattern[k] == byte;
        assert(shorter[k] == byte);
        let index = last_index_of(shorter, byte);
        assert forall|j: int| index < j < pattern.len() implies pattern[j] != byte by {
            if j < shorter.len() {
                assert(shorter[j] != byte);
            }
        }
        index
    }
}

/// A window of `text` ends at `end`; its last `equal` bytes are those of
/// `pattern` and the byte before them is not. An occurrence of `pattern` that
/// starts `distance` positions right of the window then agrees with the
/// mismatch, and `distance` is no less than the bad-character shift of the
/// window's last byte.
proof fn lemma_occurrence_after_mismatch(
    text: Seq<u8>,
    pattern: Seq<u8>,
    bad_table: Seq<usize>,
    end: int,
    equal: int,
    distance: int,
)
    requires
        is_bad_character_table(pattern, bad_table),
        pattern.len() <= end <= text.len(),
        0 <= equal < pattern.len(),
        forall|k: int|
            pattern.len() - equal <= k < pattern.len() ==> text[end - pattern.len() + k]
                == #[trigger] pattern[k],
        text[end - 1 - equal] != pattern[pattern.len() - 1 - equal],
        1 <= distance,
        occurs_at(text, pattern, end - pattern.len() + distance),
    ensures
        shift_agrees(pattern, pattern.len() - 1 - equal, distance),
        bad_table[text[end - 1] as int] <= distance,
{
    let m = pattern.len() as int;
    let start = end - m + distance;
    let window = text.subrange(start, start + m);
    let mismatch = m - 1 - equal;
    assert forall|k: int| mismatch < k < m && distance <= k implies pattern[k - distance]
        == #[trigger] pattern[k] by {
        assert(window[k - distance] == pattern[k - distance]);
    }
    if distance <= mismatch {
        assert(window[mismatch - distance] == pattern[mismatch - distance]);
    }
    let last = text[end - 1];
    if absent(pattern, last) {
        if distance < m {
            assert(window[m - 1 - distance] == pattern[m - 1 - distance]);
        }
    } else {
        let index = last_index_of(pattern, last);
        if distance < m {
            assert(window[m - 1 - distance] == pattern[m - 1 - distance]);
        }
    }
}

/// Searches `text` for the leftmost occurrence of `pattern`, with the
/// pattern's two shift tables at hand.
///
/// A cursor marks the end of the window under comparison. The window is
/// compared with the pattern from its right end; after a mismatch the cursor
/// advances by the larger of the bad-character shift of the window's last
/// byte and the good-suffix shift of the position that failed.
pub fn find_one(
    text: &[u8],
    pattern: &[u8],
    bad_table: &[usize; BYTE_LEN],
    good_table: &[usize],
) -> (found: Option<usize>)
    requires
        pattern@.len() > 0,
        is_bad_character_table(pattern@, bad_table@),
        is_good_suffix_table(pattern@, good_table@),
    ensures
        is_first_occurrence(text@, pattern@, found),
{
    let patlen = pattern.len();
    let textlen = text.len();
    if textlen == 0 {
        return None;
    }
    let mut i: usize = patlen;
    while i <= textlen
        invariant
            patlen == pattern@.len(),
            textlen == text@.len(),
            0 < patlen <= i,
            is_bad_character_table(pattern@, bad_table@),
            is_good_suffix_table(pattern@, good_table@),
            forall|offset: int| 0 <= offset < i - patlen ==> !occurs_at(text@, pattern@, offset),
        decreases textlen + 1 - i,
    {
        let mut equal: usize = 0;
        while equal < patlen && text[i - 1 - equal] == pattern[patlen - 1 - equal]
            invariant
                patlen == pattern@.len(),
                textlen == text@.len(),
                equal <= patlen <= i <= textlen,
                forall|k: int|
                    patlen - equal <= k < patlen ==> text@[i - patlen + k]
                        == #[trigger] pattern@[k],
            decreases patlen - equal,
        {
            equal += 1;
        }
        if equal == patlen {
            proof {
                let window = text@.subrange(i - patlen, i as int);
                assert(window =~= pattern@);
            }
            return Some(i - patlen);
        }
        let mismatch = patlen - equal - 1;
        let bad = bad_table[text[i - 1] as usize];
        let good = good_table[mismatch];
        let shift = if bad > good {
            bad
        } else {
            good
        };
        proof {
            assert forall|offset: int|
                i - patlen <= offset < i - patlen + shift implies !occurs_at(
                text@,
                pattern@,
                offset,
            ) by {
                if occurs_at(text@, pattern@, offset) {
                    let distance = offset - (i - patlen);
                    if distance == 0 {
                        let window = text@.subrange(offset, offset + patlen);
                        assert(window[mismatch as int] == pattern@[mismatch as int]);
                    } else {
                        lemma_occurrence_after_mismatch(
                            text@,
                            pattern@,
                            bad_table@,
                            i as int,
                            equal as int,
                            distance,
                        );
                    }
                }
            }
        }
        if shift > textlen - i {
            return None;
        }
        i += shift;
    }
    None
}

/// Searches `text` for the leftmost occurrence of `pattern`.
pub fn boyer_moore(text: &[u8], pattern: &[u8]) -> (found: Option<usize>)
    requires
        pattern@.len() > 0,
    ensures
        is_first_occurrence(text@, pattern@, found),
{
    let bad_table = bad_character_table(pattern);
    let good_table = good_suffix_table(pattern);
    find_one(text, pattern, &bad_table, good_table.as_slice())
}

/// Where the search goes on after the matches found so far: at the start of
/// the text where there is none yet, and else at the end of the last.
pub open spec fn rest_start(matches: Seq<usize>, patlen: int) -> int {
    if matches.len() == 0 {
        0
    } else {
        matches.last() + patlen
    }
}

/// `matches` lists the occurrences of `pattern` in `text` that a repeated
/// leftmost search finds: the first entry is the first occurrence, each
/// further entry is the first occurrence at or after the end of the one
/// before, and no occurrence begins at or after the end of the last.
pub open spec fn is_match_list(text: Seq<u8>, pattern: Seq<u8>, matches: Seq<usize>) -> bool {
    &&& forall|k: int|
        0 <= k < matches.len() ==> occurs_at(text, pattern, #[trigger] matches[k] as int)
    &&& matches.len() > 0 ==> none_between(text, pattern, 0, matches[0] as int)
    &&& forall|a: int, b: int|
        0 <= a && b == a + 1 && b < matches.len() ==> {
            &&& #[trigger] matches[a] + pattern.len() <= #[trigger] matches[b]
            &&& none_between(text, pattern, matches[a] + pattern.len(), matches[b] as int)
        }
    &&& none_from(text, pattern, rest_start(matches, pattern.len() as int))
}

/// `pattern` occurs in the part of `text` from `start` on exactly where it
/// occurs in `text`, `start` positions further right.
proof fn lemma_occurs_in_rest(text: Seq<u8>, pattern: Seq<u8>, start: int, offset: int)
    requires
        0 <= start <= text.len(),
        0 <= offset,
    ensures
        occurs_at(text.subrange(start, text.len() as int), pattern, offset) <==> occurs_at(
            text,
            pattern,
            start + offset,
        ),
{
    let rest = text.subrange(start, text.len() as int);
    if offset + pattern.len() <= rest.len() {
        assert(rest.subrange(offset, offset + pattern.len()) =~= text.subrange(
            start + offset,
            start + offset + pattern.len(),
        ));
    }
}

/// In a match list each match ends before any later one begins.
pub proof fn lemma_matches_do_not_overlap(
    text: Seq<u8>,
    pattern: Seq<u8>,
    matches: Seq<usize>,
    i: int,
    j: int,
)
    requires
        is_match_list(text, pattern, matches),
        0 <= i < j < matches.len(),
    ensures
        matches[i] + pattern.len() <= matches[j],
    decreases j - i,
{
    if i + 1 < j {
        lemma_matches_do_not_overlap(text, pattern, matches, i, j - 1);
    }
    assert(matches[j - 1] + pattern.len() <= matches[j]);
}

/// Two match lists of one search agree in their first `k` entries, where one
/// of them has that many.
proof fn lemma_match_lists_agree(
    text: Seq<u8>,
    pattern: Seq<u8>,
    one: Seq<usize>,
    other: Seq<usize>,
    k: int,
)
    requires
        is_match_list(text, pattern, one),
        is_match_list(text, pattern, other),
        0 <= k <= one.len(),
    ensures
        k <= other.len(),
        forall|i: int| 0 <= i < k ==> one[i] == other[i],
    decreases k,
{
    if k > 0 {
        lemma_match_lists_agree(text, pattern, one, other, k - 1);
        // The search that found `one[k - 1]` began where the other list goes
        // on after its first `k - 1` entries. So the other list has one more
        // entry, and it is the same occurrence.
        if k > 1 {
            assert(one[k - 2] + pattern.len() <= one[k - 1]);
        }
        assert(occurs_at(text, pattern, one[k - 1] as int));
        if other.len() > k - 1 {
            assert(occurs_at(text, pattern, other[k - 1] as int));
        }
    }
}

/// A text and a pattern have one match list only.
pub proof fn lemma_match_list_unique(
    text: Seq<u8>,
    pattern: Seq<u8>,
    one: Seq<usize>,
    other: Seq<usize>,
)
    requires
        is_match_list(text, pattern, one),
        is_match_list(text, pattern, other),
    ensures
        one == other,
{
    lemma_match_lists_agree(text, pattern, one, other, one.len() as int);
    lemma_match_lists_agree(text, pattern, other, one, other.len() as int);
    assert(one =~= other);
}

/// A non-empty pattern occurs in itself at offset 0 and nowhere else, so the
/// match list of a pattern searched in itself is that one offset.
pub proof fn lemma_pattern_in_itself(pattern: Seq<u8>, matches: Seq<usize>)
    requires
        pattern.len() > 0,
        is_match_list(pattern, pattern, matches),
    ensures
        matches =~= seq![0usize],
{
    assert(occurs_at(pattern, pattern, 0));
    if matches.len() > 1 {
        assert(matches[0] + pattern.len() <= matches[1]);
    }
}

/// Searches `text` for `pattern` and returns the offsets of all its
/// occurrences that do not overlap, in ascending order, or `None` where there
/// is none.
///
/// The first offset is that of the leftmost occurrence; each further one is
/// that of the leftmost occurrence that begins at or after the end of the
/// match before. The two shift tables are built once and serve every one of
/// these searches.
pub fn grep(text: &[u8], pattern: &[u8]) -> (result: Option<Vec<usize>>)
    requires
        pattern@.len() > 0,
    ensures
        result is None <==> !occurs_in(text@, pattern@),
        result matches Some(matches) ==> matches@.len() > 0 && is_match_list(
            text@,
            pattern@,
            matches@,
        ),
        result matches Some(matches) ==> forall|k: int|
            0 <= k < matches@.len() ==> occurs_at(text@, pattern@, #[trigger] matches@[k] as int),
        result matches Some(matches) ==> forall|a: int, b: int|
            0 <= a < b < matches@.len() ==> #[trigger] matches@[a] < #[trigger] matches@[b]
                && matches@[a] + pattern@.len() <= matches@[b],
        text@ == pattern@ ==> (result matches Some(matches) && matches@ == seq![0usize]),
{
    let patlen = pattern.len();
    let textlen = text.len();
    let bad_table = bad_character_table(pattern);
    let good_table = good_suffix_table(pattern);
    let mut results: Vec<usize> = Vec::new();
    let mut start: usize = 0;
    loop
        invariant
            patlen == pattern@.len(),
            textlen == text@.len(),
            0 < patlen,
            start <= textlen,
            is_bad_character_table(pattern@, bad_table@),
            is_good_suffix_table(pattern@, good_table@),
            start == rest_start(results@, patlen as int),
            forall|k: int|
                0 <= k < results@.len() ==> occurs_at(
                    text@,
                    pattern@,
                    #[trigger] results@[k] as int,
                ),
            results@.len() > 0 ==> none_between(text@, pattern@, 0, results@[0] as int),
            forall|a: int, b: int|
                0 <= a && b == a + 1 && b < results@.len() ==> {
                    &&& #[trigger] results@[a] + patlen <= #[trigger] results@[b]
                    &&& none_between(text@, pattern@, results@[a] + patlen, results@[b] as int)
                },
        ensures
            is_match_list(text@, pattern@, results@),
        decreases textlen - start,
    {
        let to_search = &text[start..textlen];
        let found = find_one(to_search, pattern, &bad_table, good_table.as_slice());
        match found {
            None => {
                proof {
                    assert forall|offset: int| start <= offset implies !occurs_at(
                        text@,
                        pattern@,
                        offset,
                    ) by {
                        lemma_occurs_in_rest(text@, pattern@, start as int, offset - start);
                    }
                }
                break ;
            },
            Some(i) => {
                proof {
                    lemma_occurs_in_rest(text@, pattern@, start as int, i as int);
                    assert forall|offset: int| start <= offset < start + i implies !occurs_at(
                        text@,
                        pattern@,
                        offset,
                    ) by {
                        lemma_occurs_in_rest(text@, pattern@, start as int, offset - start);
                    }
                }
                let ghost before = results@;
                let at = start + i;
                results.push(at);
                proof {
                    assert forall|a: int, b: int|
                        0 <= a && b == a + 1 && b < results@.len() implies {
                        &&& #[trigger] results@[a] + patlen <= #[trigger] results@[b]
                        &&& none_between(text@, pattern@, results@[a] + patlen, results@[b] as int)
                    } by {
                        if b < before.len() {
                            assert(results@[a] == before[a] && results@[b] == before[b]);
                        } else {
                            assert(results@[a] == before.last());
                        }
                    }
                }
                start = at + patlen;
            },
        }
    }
    proof {
        assert forall|a: int, b: int| 0 <= a < b < results@.len() implies #[trigger] results@[a]
            < #[trigger] results@[b] && results@[a] + patlen <= results@[b] by {
            lemma_matches_do_not_overlap(text@, pattern@, results@, a, b);
        }
        if text@ == pattern@ {
            lemma_pattern_in_itself(pattern@, results@);
        }
    }
    if results.len() == 0 {
        None
    } else {
        Some(results)
    }
}

} // verus!
