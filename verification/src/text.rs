//! Small executable helpers for building and comparing strings.

use vstd::prelude::*;

verus! {

/// Relies on `String::push`: appends the character to the end of the string.
#[verifier::external_body]
pub(crate) fn push_char(s: &mut String, c: char)
    ensures
        final(s)@ == old(s)@.push(c),
{
    s.push(c);
}

/// A `String` holding exactly the characters of `cs`.
pub fn string_of(cs: &Vec<char>) -> (r: String)
    ensures
        r@ == cs@,
{
    let mut r = String::new();
    let mut i: usize = 0;
    proof {
        assert(r@ =~= cs@.take(0));
    }
    while i < cs.len()
        invariant
            0 <= i <= cs.len(),
            r@ == cs@.take(i as int),
        decreases cs.len() - i,
    {
        push_char(&mut r, cs[i]);
        proof {
            assert(cs@.take(i as int).push(cs@[i as int]) =~= cs@.take(i as int + 1));
        }
        i = i + 1;
    }
    proof {
        assert(cs@.take(cs@.len() as int) =~= cs@);
    }
    r
}

/// `parts` joined into one string with `sep` between neighbours.
pub open spec fn join_with(parts: Seq<Seq<char>>, sep: Seq<char>) -> Seq<char>
    decreases parts.len(),
{
    if parts.len() == 0 {
        Seq::empty()
    } else if parts.len() == 1 {
        parts[0]
    } else {
        parts[0] + sep + join_with(parts.drop_first(), sep)
    }
}

/// Appending one more part joins it after a separator.
pub proof fn lemma_join_push(parts: Seq<Seq<char>>, p: Seq<char>, sep: Seq<char>)
    ensures
        join_with(parts.push(p), sep) == if parts.len() == 0 {
            p
        } else {
            join_with(parts, sep) + sep + p
        },
    decreases parts.len(),
{
    if parts.len() == 0 {
        assert(parts.push(p)[0] == p);
    } else if parts.len() == 1 {
        assert(parts.push(p).drop_first() =~= parts.drop_first().push(p));
        assert(parts.push(p).drop_first() =~= seq![p]);
        assert(join_with(seq![p], sep) == seq![p][0]);
        assert(join_with(parts.push(p), sep) == parts[0] + sep + p);
        assert(join_with(parts, sep) + sep + p =~= parts[0] + sep + p);
    } else {
        assert(parts.push(p).drop_first() =~= parts.drop_first().push(p));
        lemma_join_push(parts.drop_first(), p, sep);
        assert(join_with(parts.push(p), sep) == parts[0] + sep + (join_with(
            parts.drop_first(),
            sep,
        ) + sep + p));
        assert(parts[0] + sep + (join_with(parts.drop_first(), sep) + sep + p) =~= (parts[0] + sep
            + join_with(parts.drop_first(), sep)) + sep + p);
    }
}

/// `tags` joined into one string with `sep` between neighbours.
#[verifier::loop_isolation(false)]
pub fn join_tags(tags: &Vec<String>, sep: &str) -> (r: String)
    ensures
        r@ == join_with(tags.deep_view(), sep@),
{
    let mut r = String::new();
    let mut i: usize = 0;
    proof {
        assert(tags.deep_view().take(0) =~= Seq::<Seq<char>>::empty());
    }
    while i < tags.len()
        invariant
            0 <= i <= tags.len(),
            r@ == join_with(tags.deep_view().take(i as int), sep@),
        decreases tags.len() - i,
    {
        if i > 0 {
            r.append(sep);
        }
        r.append(tags[i].as_str());
        proof {
            lemma_join_push(tags.deep_view().take(i as int), tags.deep_view()[i as int], sep@);
            assert(tags.deep_view().take(i as int).push(tags.deep_view()[i as int])
                =~= tags.deep_view().take(i as int + 1));
        }
        i = i + 1;
    }
    proof {
        assert(tags.deep_view().take(tags.deep_view().len() as int) =~= tags.deep_view());
    }
    r
}

/// Character-for-character equality of two string slices.
pub fn str_eq(a: &str, b: &str) -> (r: bool)
    ensures
        r == (a@ == b@),
{
    let sa = a.to_owned();
    let sb = b.to_owned();
    sa == sb
}

} // verus!
