//! The fact registry: the crate-wide record of (trait, platform-list) pairs.

use vstd::prelude::*;

use crate::text::str_eq;

verus! {

/// One registered fact: a trait name paired with the platform tags that an
/// implementation of it covers.
pub struct Fact {
    pub trait_name: String,
    pub platforms: Vec<String>,
}

/// Mathematical image of a fact.
pub struct FactView {
    pub trait_name: Seq<char>,
    pub platforms: Seq<Seq<char>>,
}

impl View for Fact {
    type V = FactView;

    open spec fn view(&self) -> FactView {
        FactView { trait_name: self.trait_name@, platforms: self.platforms.deep_view() }
    }
}

impl DeepView for Fact {
    type V = FactView;

    open spec fn deep_view(&self) -> FactView {
        self.view()
    }
}

/// Whether some fact for trait `t` with exactly the platform list `ps`
/// stands in `facts`.
pub open spec fn has_fact(facts: Seq<FactView>, t: Seq<char>, ps: Seq<Seq<char>>) -> bool {
    exists|i: int|
        0 <= i < facts.len() && facts[i].trait_name == t && facts[i].platforms == ps
}

/// Registering a pair merges idempotently: a pair already present leaves the
/// registry unchanged, a new one is appended.
pub open spec fn spec_register(facts: Seq<FactView>, t: Seq<char>, ps: Seq<Seq<char>>) -> Seq<
    FactView,
> {
    if has_fact(facts, t, ps) {
        facts
    } else {
        facts.push(FactView { trait_name: t, platforms: ps })
    }
}

/// The platform tags of every fact for trait `t`, concatenated in registry
/// order; duplicates are kept.
pub open spec fn union_for(facts: Seq<FactView>, t: Seq<char>) -> Seq<Seq<char>>
    decreases facts.len(),
{
    if facts.len() == 0 {
        Seq::empty()
    } else if facts[0].trait_name == t {
        facts[0].platforms + union_for(facts.drop_first(), t)
    } else {
        union_for(facts.drop_first(), t)
    }
}

/// How many facts in `facts` carry trait `t`.
pub open spec fn count_for(facts: Seq<FactView>, t: Seq<char>) -> nat
    decreases facts.len(),
{
    if facts.len() == 0 {
        0
    } else if facts[0].trait_name == t {
        1 + count_for(facts.drop_first(), t)
    } else {
        count_for(facts.drop_first(), t)
    }
}

/// Law: a pair registered for a trait that no existing fact names is found
/// by the query exactly: the union for that trait becomes exactly the
/// registered platform list, and exactly one fact for the trait stands in
/// the registry.
pub proof fn lemma_fresh_fact_queried_once(facts: Seq<FactView>, t: Seq<char>, ps: Seq<Seq<char>>)
    requires
        forall|i: int| 0 <= i < facts.len() ==> (#[trigger] facts[i]).trait_name != t,
    ensures
        union_for(spec_register(facts, t, ps), t) == ps,
        count_for(spec_register(facts, t, ps), t) == 1,
    decreases facts.len(),
{
    let f = FactView { trait_name: t, platforms: ps };
    assert(!has_fact(facts, t, ps));
    let s = facts.push(f);
    if facts.len() == 0 {
        assert(s[0] == f);
        assert(s.drop_first() =~= Seq::<FactView>::empty());
        assert(union_for(Seq::<FactView>::empty(), t) == Seq::<Seq<char>>::empty());
        assert(count_for(Seq::<FactView>::empty(), t) == 0);
        assert(union_for(s, t) == ps + Seq::<Seq<char>>::empty());
        assert(ps + Seq::<Seq<char>>::empty() =~= ps);
    } else {
        assert(forall|i: int|
            0 <= i < facts.drop_first().len() ==> (#[trigger] facts.drop_first()[i])
                == facts[i + 1]);
        assert(!has_fact(facts.drop_first(), t, ps));
        lemma_fresh_fact_queried_once(facts.drop_first(), t, ps);
        assert(spec_register(facts.drop_first(), t, ps) == facts.drop_first().push(f));
        assert(s.drop_first() =~= facts.drop_first().push(f));
        assert(s[0] == facts[0]);
        assert(facts[0].trait_name != t);
        assert(union_for(s, t) == union_for(s.drop_first(), t));
        assert(count_for(s, t) == count_for(s.drop_first(), t));
    }
}

/// Law: registering the same (trait, platform-list) pair twice leaves the
/// registry exactly as one registration does.
pub proof fn lemma_register_idempotent(facts: Seq<FactView>, t: Seq<char>, ps: Seq<Seq<char>>)
    ensures
        spec_register(spec_register(facts, t, ps), t, ps) == spec_register(facts, t, ps),
{
    let once = spec_register(facts, t, ps);
    if !has_fact(facts, t, ps) {
        assert(once[facts.len() as int].trait_name == t && once[facts.len() as int].platforms
            == ps);
        assert(has_fact(once, t, ps));
    }
}

/// The append-only, crate-wide collection of all registered facts.
pub struct Registry {
    pub facts: Vec<Fact>,
}

impl View for Registry {
    type V = Seq<FactView>;

    open spec fn view(&self) -> Seq<FactView> {
        self.facts.deep_view()
    }
}

/// Whether two platform lists are equal tag for tag.
pub fn tag_lists_equal(a: &Vec<String>, b: &Vec<String>) -> (r: bool)
    ensures
        r == (a.deep_view() == b.deep_view()),
{
    if a.len() != b.len() {
        proof {
            assert(a.deep_view().len() != b.deep_view().len());
        }
        return false;
    }
    let mut i: usize = 0;
    while i < a.len()
        invariant
            0 <= i <= a.len(),
            a@.len() == b@.len(),
            forall|j: int| 0 <= j < i ==> (#[trigger] a@[j])@ == b@[j]@,
        decreases a.len() - i,
    {
        if !str_eq(a[i].as_str(), b[i].as_str()) {
            proof {
                assert(a.deep_view()[i as int] != b.deep_view()[i as int]);
            }
            return false;
        }
        i = i + 1;
    }
    proof {
        assert(a.deep_view() =~= b.deep_view());
    }
    true
}

impl Registry {
    /// An empty registry, as at the start of a build.
    pub fn new() -> (r: Registry)
        ensures
            r@ == Seq::<FactView>::empty(),
    {
        let r = Registry { facts: Vec::new() };
        proof {
            assert(r@ =~= Seq::<FactView>::empty());
        }
        r
    }

    /// Records that `trait_name` has an implementation covering `platforms`.
    /// A pair already registered is merged idempotently; the result says
    /// whether the fact was new.
    #[verifier::loop_isolation(false)]
    pub fn register(&mut self, trait_name: String, platforms: Vec<String>) -> (added: bool)
        ensures
            final(self)@ == spec_register(old(self)@, trait_name@, platforms.deep_view()),
            added == !has_fact(old(self)@, trait_name@, platforms.deep_view()),
    {
        let ghost t = trait_name@;
        let ghost ps = platforms.deep_view();
        let mut i: usize = 0;
        while i < self.facts.len()
            invariant
                0 <= i <= self.facts.len(),
                forall|j: int|
                    0 <= j < i ==> !(self@[j].trait_name == t && self@[j].platforms == ps),
            decreases self.facts.len() - i,
        {
            proof {
                assert(self@[i as int] == self.facts@[i as int]@);
            }
            let same_trait = str_eq(self.facts[i].trait_name.as_str(), trait_name.as_str());
            if same_trait && tag_lists_equal(&self.facts[i].platforms, &platforms) {
                proof {
                    assert(self@[i as int].trait_name == t && self@[i as int].platforms == ps);
                    assert(has_fact(self@, t, ps));
                }
                return false;
            }
            i = i + 1;
        }
        proof {
            assert(!has_fact(self@, t, ps));
        }
        let ghost before = self@;
        self.facts.push(Fact { trait_name, platforms });
        proof {
            assert(self@ =~= before.push(FactView { trait_name: t, platforms: ps }));
        }
        true
    }

    /// The union (as a tag list, registry order, duplicates kept) of the
    /// platform lists of every fact for trait `t`.
    #[verifier::loop_isolation(false)]
    pub fn union_for_trait(&self, t: &str) -> (r: Vec<String>)
        ensures
            r.deep_view() == union_for(self@, t@),
    {
        let mut r: Vec<String> = Vec::new();
        let mut i: usize = 0;
        proof {
            assert(self@.skip(0) =~= self@);
            assert(r.deep_view() =~= Seq::<Seq<char>>::empty());
        }
        while i < self.facts.len()
            invariant
                0 <= i <= self.facts.len(),
                union_for(self@, t@) == r.deep_view() + union_for(self@.skip(i as int), t@),
            decreases self.facts.len() - i,
        {
            proof {
                assert(self@.skip(i as int).drop_first() =~= self@.skip(i as int + 1));
                assert(self@.skip(i as int)[0] == self@[i as int]);
                assert(self@[i as int] == self.facts@[i as int]@);
            }
            if str_eq(self.facts[i].trait_name.as_str(), t) {
                let mut k: usize = 0;
                let ghost r0 = r.deep_view();
                while k < self.facts[i].platforms.len()
                    invariant
                        0 <= i < self.facts@.len(),
                        self@[i as int] == self.facts@[i as int]@,
                        0 <= k <= self.facts@[i as int].platforms@.len(),
                        r.deep_view() == r0 + self@[i as int].platforms.take(k as int),
                    decreases self.facts@[i as int].platforms@.len() - k,
                {
                    let ghost r_old = r.deep_view();
                    let tag = self.facts[i].platforms[k].clone();
                    r.push(tag);
                    proof {
                        assert(r.deep_view() =~= r_old.push(
                            self@[i as int].platforms[k as int],
                        ));
                        assert((r0 + self@[i as int].platforms.take(k as int)).push(
                            self@[i as int].platforms[k as int],
                        ) =~= r0 + self@[i as int].platforms.take(k as int + 1));
                    }
                    k = k + 1;
                }
                proof {
                    assert(self@[i as int].platforms.take(self@[i as int].platforms.len() as int)
                        =~= self@[i as int].platforms);
                    assert((r0 + self@[i as int].platforms) + union_for(
                        self@.skip(i as int + 1),
                        t@,
                    ) =~= r0 + (self@[i as int].platforms + union_for(
                        self@.skip(i as int + 1),
                        t@,
                    )));
                }
            }
            i = i + 1;
        }
        proof {
            assert(self@.skip(self@.len() as int) =~= Seq::<FactView>::empty());
            assert(r.deep_view() + Seq::<Seq<char>>::empty() =~= r.deep_view());
        }
        r
    }
}

} // verus!

