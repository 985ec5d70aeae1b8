//! Platform-tag lists: trimming, comma-splitting, normalization.

use vstd::prelude::*;

use crate::is_space_char;
use crate::char_is_space;
use crate::text::string_of;
use crate::text::join_with;

verus! {

/// Why a platform list is rejected.
#[derive(Debug, Clone, Copy, PartialEq, Eq, Structural)]
pub enum ListError {
    /// Some comma-separated segment is empty once trimmed; in particular the
    /// whole list is empty. An empty tag could never match a build target,
    /// so it is rejected as a configuration error.
    EmptyTag,
}

/// `s` with its leading whitespace removed.
pub open spec fn trim_front(s: Seq<char>) -> Seq<char>
    decreases s.len(),
{
    if s.len() > 0 && is_space_char(s[0]) {
        trim_front(s.drop_first())
    } else {
        s
    }
}

/// `s` with its trailing whitespace removed.
pub open spec fn trim_back(s: Seq<char>) -> Seq<char>
    decreases s.len(),
{
    if s.len() > 0 && is_space_char(s.last()) {
        trim_back(s.drop_last())
    } else {
        s
    }
}

/// `s` with whitespace removed from both ends.
pub open spec fn trim_spec(s: Seq<char>) -> Seq<char> {
    trim_back(trim_front(s))
}

/// Index of the first occurrence of `sep` in `s`, or -1 when there is none.
pub open spec fn first_sep(s: Seq<char>, sep: char) -> int
    decreases s.len(),
{
    if s.len() == 0 {
        -1
    } else if s[0] == sep {
        0
    } else {
        let r = first_sep(s.drop_first(), sep);
        if r < 0 {
            -1
        } else {
            r + 1
        }
    }
}

/// The `sep`-separated segments of `s`, in order, separators removed.
/// The empty string yields one empty segment, as `str::split` does.
pub open spec fn split_sep(s: Seq<char>, sep: char) -> Seq<Seq<char>>
    decreases s.len(),
{
    let i = first_sep(s, sep);
    if 0 <= i < s.len() {
        seq![s.take(i)] + split_sep(s.skip(i + 1), sep)
    } else {
        seq![s]
    }
}

/// The comma-separated segments of `s`.
pub open spec fn split_commas(s: Seq<char>) -> Seq<Seq<char>> {
    split_sep(s, ',')
}

/// The normalized platform list of `s`: its comma-separated segments,
/// each trimmed of surrounding whitespace.
pub open spec fn normalize_list(s: Seq<char>) -> Seq<Seq<char>> {
    split_commas(s).map_values(|seg: Seq<char>| trim_spec(seg))
}

/// True when `s` never holds the character `sep`.
pub open spec fn sep_free(s: Seq<char>, sep: char) -> bool {
    forall|i: int| 0 <= i < s.len() ==> s[i] != sep
}

/// A separator-free string has no first separator.
pub proof fn lemma_first_sep_none(s: Seq<char>, sep: char)
    requires
        sep_free(s, sep),
    ensures
        first_sep(s, sep) == -1,
    decreases s.len(),
{
    if s.len() > 0 {
        assert(forall|i: int| 0 <= i < s.drop_first().len() ==> s.drop_first()[i] == s[i + 1]);
        lemma_first_sep_none(s.drop_first(), sep);
    }
}

/// The first separator after a separator-free prefix stands right after
/// that prefix.
pub proof fn lemma_first_sep_prefix(pre: Seq<char>, rest: Seq<char>, sep: char)
    requires
        sep_free(pre, sep),
    ensures
        first_sep(pre + seq![sep] + rest, sep) == pre.len(),
    decreases pre.len(),
{
    let s = pre + seq![sep] + rest;
    if pre.len() == 0 {
        assert(s[0] == sep);
    } else {
        assert(s[0] == pre[0]);
        assert(sep_free(pre.drop_first(), sep));
        lemma_first_sep_prefix(pre.drop_first(), rest, sep);
        assert(s.drop_first() =~= pre.drop_first() + seq![sep] + rest);
    }
}

/// Splitting a separator-free string yields that string as the one segment.
pub proof fn lemma_split_sep_free(s: Seq<char>, sep: char)
    requires
        sep_free(s, sep),
    ensures
        split_sep(s, sep) == seq![s],
{
    lemma_first_sep_none(s, sep);
}

/// Splitting peels a separator-free first segment off at the first
/// separator.
pub proof fn lemma_split_sep_step(pre: Seq<char>, rest: Seq<char>, sep: char)
    requires
        sep_free(pre, sep),
    ensures
        split_sep(pre + seq![sep] + rest, sep) == seq![pre] + split_sep(rest, sep),
{
    let s = pre + seq![sep] + rest;
    lemma_first_sep_prefix(pre, rest, sep);
    assert(s.take(pre.len() as int) =~= pre);
    assert(s.skip(pre.len() as int + 1) =~= rest);
}

/// The characters of `s`, as a vector.
pub fn chars_of(s: &str) -> (r: Vec<char>)
    ensures
        r@ == s@,
{
    let mut v: Vec<char> = Vec::new();
    for c in it: s.chars()
        invariant
            it.seq() == s@,
            v@ == it.seq().take(it.index() as int),
    {
        v.push(c);
    }
    proof {
        assert(v@ =~= s@);
    }
    v
}

/// `s` with whitespace removed from both ends.
pub fn trim_chars(s: &Vec<char>) -> (r: Vec<char>)
    ensures
        r@ == trim_spec(s@),
{
    let mut start: usize = 0;
    proof {
        assert(s@.skip(0) =~= s@);
    }
    while start < s.len() && char_is_space(s[start])
        invariant
            0 <= start <= s.len(),
            trim_front(s@) == trim_front(s@.skip(start as int)),
        decreases s.len() - start,
    {
        proof {
            assert(s@.skip(start as int).drop_first() =~= s@.skip(start as int + 1));
        }
        start = start + 1;
    }
    proof {
        assert(trim_front(s@) =~= s@.skip(start as int));
    }
    let mut end: usize = s.len();
    while end > start && char_is_space(s[end - 1])
        invariant
            start <= end <= s.len(),
            trim_front(s@) == s@.skip(start as int),
            trim_back(s@.skip(start as int)) == trim_back(s@.subrange(start as int, end as int)),
        decreases end,
    {
        proof {
            assert(s@.subrange(start as int, end as int).drop_last() =~= s@.subrange(
                start as int,
                end as int - 1,
            ));
        }
        end = end - 1;
    }
    proof {
        assert(trim_back(s@.subrange(start as int, end as int)) =~= s@.subrange(
            start as int,
            end as int,
        ));
    }
    let mut r: Vec<char> = Vec::new();
    let mut i: usize = start;
    while i < end
        invariant
            start <= i <= end <= s.len(),
            r@ == s@.subrange(start as int, i as int),
        decreases end - i,
    {
        r.push(s[i]);
        proof {
            assert(r@ =~= s@.subrange(start as int, i as int + 1));
        }
        i = i + 1;
    }
    proof {
        assert(r@ =~= trim_spec(s@));
    }
    r
}

/// The comma-separated segments of `s`, separators removed, order kept.
pub fn split_at_commas(s: &Vec<char>) -> (r: Vec<Vec<char>>)
    ensures
        r@.map_values(|v: Vec<char>| v@) == split_commas(s@),
{
    let mut result: Vec<Vec<char>> = Vec::new();
    let mut cur: Vec<char> = Vec::new();
    let mut i: usize = 0;
    proof {
        assert(cur@ + s@.skip(0) =~= s@);
        assert(result@.map_values(|v: Vec<char>| v@) =~= Seq::<Seq<char>>::empty());
    }
    while i < s.len()
        invariant
            0 <= i <= s.len(),
            forall|j: int| 0 <= j < cur@.len() ==> cur@[j] != ',',
            split_commas(s@) == result@.map_values(|v: Vec<char>| v@) + split_commas(
                cur@ + s@.skip(i as int),
            ),
        decreases s.len() - i,
    {
        if s[i] == ',' {
            proof {
                lemma_split_sep_step(cur@, s@.skip(i as int + 1), ',');
                assert(cur@ + s@.skip(i as int) =~= cur@ + seq![','] + s@.skip(i as int + 1));
                assert(result@.push(cur).map_values(|v: Vec<char>| v@) =~= result@.map_values(
                    |v: Vec<char>| v@,
                ).push(cur@));
            }
            result.push(cur);
            cur = Vec::new();
        } else {
            proof {
                assert(cur@.push(s@[i as int]) + s@.skip(i as int + 1) =~= cur@ + s@.skip(
                    i as int,
                ));
            }
            cur.push(s[i]);
        }
        i = i + 1;
    }
    proof {
        assert(cur@ + s@.skip(s@.len() as int) =~= cur@);
        lemma_split_sep_free(cur@, ',');
        assert(result@.push(cur).map_values(|v: Vec<char>| v@) =~= result@.map_values(
            |v: Vec<char>| v@,
        ).push(cur@));
    }
    result.push(cur);
    result
}

/// The normalized platform list of `s`: comma-separated segments, trimmed.
pub fn normalize_chars(s: &Vec<char>) -> (r: Vec<Vec<char>>)
    ensures
        r@.map_values(|v: Vec<char>| v@) == normalize_list(s@),
{
    let segs = split_at_commas(s);
    let mut r: Vec<Vec<char>> = Vec::new();
    let mut i: usize = 0;
    while i < segs.len()
        invariant
            0 <= i <= segs.len(),
            segs@.map_values(|v: Vec<char>| v@) == split_commas(s@),
            r@.len() == i,
            forall|j: int| 0 <= j < i ==> r@.map_values(|v: Vec<char>| v@)[j] == trim_spec(
                split_commas(s@)[j],
            ),
        decreases segs.len() - i,
    {
        let t = trim_chars(&segs[i]);
        r.push(t);
        i = i + 1;
    }
    proof {
        assert(r@.map_values(|v: Vec<char>| v@) =~= normalize_list(s@));
    }
    r
}

/// True when `s` holds no comma, so that splitting cannot divide it.
pub open spec fn comma_free(s: Seq<char>) -> bool {
    sep_free(s, ',')
}

/// True when every character of `s` is trimmable whitespace.
pub open spec fn all_space(s: Seq<char>) -> bool {
    forall|i: int| 0 <= i < s.len() ==> is_space_char(#[trigger] s[i])
}

/// A whitespace prefix does not change the front trim.
proof fn lemma_trim_front_ws(lead: Seq<char>, s: Seq<char>)
    requires
        all_space(lead),
    ensures
        trim_front(lead + s) == trim_front(s),
    decreases lead.len(),
{
    if lead.len() == 0 {
        assert(lead + s =~= s);
    } else {
        assert((lead + s)[0] == lead[0]);
        assert((lead + s).drop_first() =~= lead.drop_first() + s);
        assert(all_space(lead.drop_first()));
        lemma_trim_front_ws(lead.drop_first(), s);
    }
}

/// A whitespace suffix does not change the back trim.
proof fn lemma_trim_back_ws(s: Seq<char>, trail: Seq<char>)
    requires
        all_space(trail),
    ensures
        trim_back(s + trail) == trim_back(s),
    decreases trail.len(),
{
    if trail.len() == 0 {
        assert(s + trail =~= s);
    } else {
        assert((s + trail).last() == trail.last());
        assert((s + trail).drop_last() =~= s + trail.drop_last());
        assert(all_space(trail.drop_last()));
        lemma_trim_back_ws(s, trail.drop_last());
    }
}

/// When something survives the front trim, a suffix passes through it.
proof fn lemma_trim_front_concat(s: Seq<char>, trail: Seq<char>)
    requires
        trim_front(s).len() > 0,
    ensures
        trim_front(s + trail) == trim_front(s) + trail,
    decreases s.len(),
{
    if s.len() > 0 && is_space_char(s[0]) {
        assert((s + trail)[0] == s[0]);
        assert((s + trail).drop_first() =~= s.drop_first() + trail);
        lemma_trim_front_concat(s.drop_first(), trail);
    } else {
        assert(s.len() > 0);
        assert((s + trail)[0] == s[0]);
        assert(trim_front(s + trail) == s + trail);
        assert(trim_front(s) == s);
    }
}

/// A string whose front trim is empty is whitespace throughout.
proof fn lemma_trim_front_empty_all_ws(s: Seq<char>)
    requires
        trim_front(s).len() == 0,
    ensures
        all_space(s),
    decreases s.len(),
{
    if s.len() > 0 {
        assert(is_space_char(s[0]));
        lemma_trim_front_empty_all_ws(s.drop_first());
        assert(forall|i: int| 1 <= i < s.len() ==> s[i] == s.drop_first()[i - 1]);
    }
}

/// Law: whitespace padding around a string does not change its trim; a tag
/// written with extra spaces normalizes to the same tag.
pub proof fn lemma_trim_padding(lead: Seq<char>, s: Seq<char>, trail: Seq<char>)
    requires
        all_space(lead),
        all_space(trail),
    ensures
        trim_spec(lead + s + trail) == trim_spec(s),
{
    assert(lead + s + trail =~= lead + (s + trail));
    lemma_trim_front_ws(lead, s + trail);
    if trim_front(s).len() > 0 {
        lemma_trim_front_concat(s, trail);
        lemma_trim_back_ws(trim_front(s), trail);
    } else {
        lemma_trim_front_empty_all_ws(s);
        assert(all_space(s + trail));
        lemma_trim_front_ws(s + trail, Seq::<char>::empty());
        assert((s + trail) + Seq::<char>::empty() =~= s + trail);
        assert(trim_front(Seq::<char>::empty()).len() == 0);
        assert(trim_front(s + trail).len() == 0);
        assert(trim_back(trim_front(s + trail)).len() == 0);
        assert(trim_back(trim_front(s)).len() == 0);
        assert(trim_spec(lead + s + trail) =~= trim_spec(s));
    }
}

/// Joining separator-free segments with the separator and splitting again
/// returns exactly the segments.
pub proof fn lemma_split_sep_join(segs: Seq<Seq<char>>, sep: char)
    requires
        segs.len() > 0,
        forall|i: int| 0 <= i < segs.len() ==> sep_free(#[trigger] segs[i], sep),
    ensures
        split_sep(join_with(segs, seq![sep]), sep) == segs,
    decreases segs.len(),
{
    if segs.len() == 1 {
        assert(join_with(segs, seq![sep]) == segs[0]);
        lemma_split_sep_free(segs[0], sep);
        assert(seq![segs[0]] =~= segs);
    } else {
        let rest = join_with(segs.drop_first(), seq![sep]);
        assert(join_with(segs, seq![sep]) == segs[0] + seq![sep] + rest);
        lemma_split_sep_step(segs[0], rest, sep);
        assert(forall|i: int|
            0 <= i < segs.drop_first().len() ==> (#[trigger] segs.drop_first()[i])
                == segs[i + 1]);
        lemma_split_sep_join(segs.drop_first(), sep);
        assert(seq![segs[0]] + segs.drop_first() =~= segs);
    }
}

/// Law: two comma-separated lists whose corresponding segments trim to the
/// same tags normalize to the same platform list. Whitespace variation
/// around the tags of a list therefore cannot change its normal form.
pub proof fn lemma_whitespace_variation(segs1: Seq<Seq<char>>, segs2: Seq<Seq<char>>)
    requires
        segs1.len() == segs2.len(),
        segs1.len() > 0,
        forall|i: int| 0 <= i < segs1.len() ==> comma_free(#[trigger] segs1[i]),
        forall|i: int| 0 <= i < segs2.len() ==> comma_free(#[trigger] segs2[i]),
        forall|i: int| 0 <= i < segs1.len() ==> trim_spec(#[trigger] segs1[i]) == trim_spec(
            segs2[i],
        ),
    ensures
        normalize_list(join_with(segs1, seq![','])) == normalize_list(
            join_with(segs2, seq![',']),
        ),
{
    lemma_split_sep_join(segs1, ',');
    lemma_split_sep_join(segs2, ',');
    assert(normalize_list(join_with(segs1, seq![','])) =~= normalize_list(
        join_with(segs2, seq![',']),
    ));
}

/// Parses a comma-separated platform list: the segments of `s`, each trimmed
/// of surrounding whitespace, in order, duplicates kept. Rejects a list in
/// which any segment trims to nothing (so also the empty list).
pub fn parse_platform_list(s: &str) -> (r: Result<Vec<String>, ListError>)
    ensures
        r is Ok <==> (forall|j: int|
            0 <= j < normalize_list(s@).len() ==> normalize_list(s@)[j].len() > 0),
        r is Ok ==> r->Ok_0@.map_values(|t: String| t@) == normalize_list(s@),
        r is Err ==> r->Err_0 == ListError::EmptyTag,
{
    let cs = chars_of(s);
    let parts = normalize_chars(&cs);
    let mut out: Vec<String> = Vec::new();
    let mut i: usize = 0;
    while i < parts.len()
        invariant
            0 <= i <= parts.len(),
            parts@.map_values(|v: Vec<char>| v@) == normalize_list(s@),
            out@.len() == i,
            forall|j: int| 0 <= j < i ==> normalize_list(s@)[j].len() > 0,
            forall|j: int| 0 <= j < i ==> out@.map_values(|t: String| t@)[j] == normalize_list(
                s@,
            )[j],
        decreases parts.len() - i,
    {
        if parts[i].len() == 0 {
            proof {
                assert(normalize_list(s@)[i as int].len() == 0);
            }
            return Err(ListError::EmptyTag);
        }
        let t = string_of(&parts[i]);
        out.push(t);
        i = i + 1;
    }
    proof {
        assert(out@.map_values(|t: String| t@) =~= normalize_list(s@));
    }
    Ok(out)
}

} // verus!
