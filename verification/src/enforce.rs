//! Requirement enforcement: coverage validation against the registry,
//! and the diagnostics it produces.

use vstd::prelude::*;

use crate::registry::Registry;
use crate::registry::FactView;
use crate::registry::has_fact;
use crate::registry::spec_register;
use crate::registry::union_for;
use crate::text::str_eq;
use crate::text::join_with;
use crate::text::join_tags;

verus! {

/// Whether tag `t` stands somewhere in `tags`.
pub open spec fn seq_contains_tag(tags: Seq<Seq<char>>, t: Seq<char>) -> bool {
    exists|i: int| 0 <= i < tags.len() && tags[i] == t
}

/// The tags of `required` absent from `implemented`, in declaration order.
pub open spec fn missing_spec(required: Seq<Seq<char>>, implemented: Seq<Seq<char>>) -> Seq<
    Seq<char>,
> {
    required.filter(|t: Seq<char>| !seq_contains_tag(implemented, t))
}

/// A tag found in the right half of a concatenation is found in the whole.
proof fn lemma_contains_in_right(a: Seq<Seq<char>>, b: Seq<Seq<char>>, x: Seq<char>)
    requires
        seq_contains_tag(b, x),
    ensures
        seq_contains_tag(a + b, x),
{
    let i = choose|i: int| 0 <= i < b.len() && b[i] == x;
    assert((a + b)[a.len() + i] == x);
}

/// Every platform tag of every fact for trait `t` stands in the union
/// queried for `t`.
pub proof fn lemma_union_covers_fact(facts: Seq<FactView>, i: int, t: Seq<char>)
    requires
        0 <= i < facts.len(),
        facts[i].trait_name == t,
    ensures
        forall|j: int|
            0 <= j < facts[i].platforms.len() ==> seq_contains_tag(
                union_for(facts, t),
                facts[i].platforms[j],
            ),
    decreases i,
{
    if i == 0 {
        assert forall|j: int| 0 <= j < facts[0].platforms.len() implies seq_contains_tag(
            union_for(facts, t),
            facts[0].platforms[j],
        ) by {
            assert(union_for(facts, t)[j] == facts[0].platforms[j]);
        }
    } else {
        lemma_union_covers_fact(facts.drop_first(), i - 1, t);
        assert(facts.drop_first()[i - 1] == facts[i]);
        assert forall|j: int| 0 <= j < facts[i].platforms.len() implies seq_contains_tag(
            union_for(facts, t),
            facts[i].platforms[j],
        ) by {
            assert(seq_contains_tag(union_for(facts.drop_first(), t), facts[i].platforms[j]));
            if facts[0].trait_name == t {
                lemma_contains_in_right(
                    facts[0].platforms,
                    union_for(facts.drop_first(), t),
                    facts[i].platforms[j],
                );
            }
        }
    }
}

/// Law: once a fact registering the exact (trait, platform-list) pair of a
/// requirement stands in the registry, that requirement validates: nothing
/// is missing from the union queried for the trait.
pub proof fn lemma_registered_requirement_validates(
    facts: Seq<FactView>,
    t: Seq<char>,
    ps: Seq<Seq<char>>,
)
    ensures
        missing_spec(ps, union_for(spec_register(facts, t, ps), t)).len() == 0,
{
    let after = spec_register(facts, t, ps);
    if has_fact(facts, t, ps) {
        let i = choose|i: int|
            0 <= i < facts.len() && facts[i].trait_name == t && facts[i].platforms == ps;
        lemma_union_covers_fact(facts, i, t);
        assert forall|j: int| 0 <= j < ps.len() implies seq_contains_tag(
            union_for(after, t),
            ps[j],
        ) by {
            assert(seq_contains_tag(union_for(facts, t), facts[i].platforms[j]));
        }
    } else {
        assert(after[facts.len() as int] == FactView { trait_name: t, platforms: ps });
        lemma_union_covers_fact(after, facts.len() as int, t);
        assert forall|j: int| 0 <= j < ps.len() implies seq_contains_tag(
            union_for(after, t),
            ps[j],
        ) by {
            assert(seq_contains_tag(
                union_for(after, t),
                after[facts.len() as int].platforms[j],
            ));
        }
    }
    lemma_missing_len_zero(ps, union_for(after, t));
}

/// Law: once a requirement validates, every platform it requires stands in
/// the implemented union — a build for a required platform therefore
/// compiles a real implementation, never the failing stub.
pub proof fn lemma_validated_requirement_covered(
    required: Seq<Seq<char>>,
    implemented: Seq<Seq<char>>,
    target: Seq<char>,
)
    requires
        missing_spec(required, implemented).len() == 0,
        seq_contains_tag(required, target),
    ensures
        seq_contains_tag(implemented, target),
{
    lemma_missing_len_zero(required, implemented);
    let i = choose|i: int| 0 <= i < required.len() && required[i] == target;
    assert(seq_contains_tag(implemented, required[i]));
}

/// A coverage obligation attached to a type: the named trait must be
/// implemented, somewhere in the compilation unit, for every listed platform.
pub struct Requirement {
    pub trait_name: String,
    pub platforms: Vec<String>,
}

/// Mathematical image of a requirement.
pub struct RequirementView {
    pub trait_name: Seq<char>,
    pub platforms: Seq<Seq<char>>,
}

impl View for Requirement {
    type V = RequirementView;

    open spec fn view(&self) -> RequirementView {
        RequirementView { trait_name: self.trait_name@, platforms: self.platforms.deep_view() }
    }
}

/// A failed coverage check: the trait and every required platform for which
/// no fact is registered.
pub struct CoverageError {
    pub trait_name: String,
    pub missing: Vec<String>,
}

/// Whether tag `t` stands somewhere in `tags`.
pub fn contains_tag(tags: &Vec<String>, t: &str) -> (r: bool)
    ensures
        r == seq_contains_tag(tags.deep_view(), t@),
{
    let mut i: usize = 0;
    while i < tags.len()
        invariant
            0 <= i <= tags.len(),
            forall|j: int| 0 <= j < i ==> (#[trigger] tags@[j])@ != t@,
        decreases tags.len() - i,
    {
        if str_eq(tags[i].as_str(), t) {
            proof {
                assert(tags.deep_view()[i as int] == t@);
            }
            return true;
        }
        i = i + 1;
    }
    proof {
        assert(forall|j: int| 0 <= j < tags.deep_view().len() ==> tags.deep_view()[j] != t@);
    }
    false
}

/// Nothing is missing exactly when every required tag is implemented.
pub proof fn lemma_missing_len_zero(required: Seq<Seq<char>>, implemented: Seq<Seq<char>>)
    ensures
        missing_spec(required, implemented).len() == 0 <==> (forall|j: int|
            0 <= j < required.len() ==> seq_contains_tag(implemented, required[j])),
    decreases required.len(),
{
    reveal(Seq::filter);
    if required.len() > 0 {
        lemma_missing_len_zero(required.drop_last(), implemented);
        assert(forall|i: int|
            0 <= i < required.len() - 1 ==> required.drop_last()[i] == required[i]);
        assert(required[required.len() - 1] == required.last());
    }
}

/// The tags of `required` absent from `implemented`, in declaration order.
#[verifier::loop_isolation(false)]
pub fn missing_tags(required: &Vec<String>, implemented: &Vec<String>) -> (r: Vec<String>)
    ensures
        r.deep_view() == missing_spec(required.deep_view(), implemented.deep_view()),
{
    let mut r: Vec<String> = Vec::new();
    let mut i: usize = 0;
    proof {
        reveal(Seq::filter);
        assert(required.deep_view().take(0) =~= Seq::<Seq<char>>::empty());
        assert(r.deep_view() =~= missing_spec(
            required.deep_view().take(0),
            implemented.deep_view(),
        ));
    }
    while i < required.len()
        invariant
            0 <= i <= required.len(),
            r.deep_view() == missing_spec(
                required.deep_view().take(i as int),
                implemented.deep_view(),
            ),
        decreases required.len() - i,
    {
        let ghost r_old = r.deep_view();
        let ghost pre = required.deep_view().take(i as int);
        let ghost cur = required.deep_view()[i as int];
        if !contains_tag(implemented, required[i].as_str()) {
            let tag = required[i].clone();
            r.push(tag);
            proof {
                assert(r.deep_view() =~= r_old.push(cur));
            }
        }
        proof {
            reveal(Seq::filter);
            assert(required.deep_view().take(i as int + 1).drop_last() =~= pre);
            assert(required.deep_view().take(i as int + 1).last() == cur);
        }
        i = i + 1;
    }
    proof {
        assert(required.deep_view().take(required.deep_view().len() as int)
            =~= required.deep_view());
    }
    r
}

/// Checks one requirement against the registry: every required platform must
/// stand in the union of the platform lists registered for the trait. The
/// check looks only at the registry, never at the build's own target. On
/// failure the error names the trait and every missing platform.
pub fn validate(reg: &Registry, req: &Requirement) -> (r: Result<(), CoverageError>)
    ensures
        r is Ok <==> (forall|j: int|
            0 <= j < req@.platforms.len() ==> seq_contains_tag(
                union_for(reg@, req@.trait_name),
                req@.platforms[j],
            )),
        r is Ok <==> missing_spec(req@.platforms, union_for(reg@, req@.trait_name)).len() == 0,
        r is Err ==> r->Err_0.trait_name@ == req@.trait_name,
        r is Err ==> r->Err_0.missing.deep_view() == missing_spec(
            req@.platforms,
            union_for(reg@, req@.trait_name),
        ),
        r is Err ==> r->Err_0.missing@.len() > 0,
{
    let implemented = reg.union_for_trait(req.trait_name.as_str());
    let missing = missing_tags(&req.platforms, &implemented);
    proof {
        lemma_missing_len_zero(req@.platforms, union_for(reg@, req@.trait_name));
    }
    if missing.len() == 0 {
        Ok(())
    } else {
        Err(CoverageError { trait_name: req.trait_name.clone(), missing })
    }
}

/// The diagnostic naming the trait and the full required platform list, as a
/// requirement violation reports it.
pub fn requirement_message(trait_name: &str, required: &Vec<String>) -> (r: String)
    ensures
        r@ == "Trait "@ + trait_name@ + " must be implemented for one of: "@ + join_with(
            required.deep_view(),
            ", "@,
        ),
{
    let mut r = String::from_str("Trait ");
    r.append(trait_name);
    r.append(" must be implemented for one of: ");
    let tail = join_tags(required, ", ");
    r.append(tail.as_str());
    proof {
        assert(r@ =~= "Trait "@ + trait_name@ + " must be implemented for one of: "@ + join_with(
            required.deep_view(),
            ", "@,
        ));
    }
    r
}

/// The diagnostic naming one missing platform and its trait.
pub fn missing_message(tag: &str, trait_name: &str) -> (r: String)
    ensures
        r@ == "Missing implementation for OS: "@ + tag@ + " for trait "@ + trait_name@,
{
    let mut r = String::from_str("Missing implementation for OS: ");
    r.append(tag);
    r.append(" for trait ");
    r.append(trait_name);
    proof {
        assert(r@ =~= "Missing implementation for OS: "@ + tag@ + " for trait "@ + trait_name@);
    }
    r
}

} // verus!
