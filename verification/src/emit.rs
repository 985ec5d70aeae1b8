//! Fact emission: the names and source fragments generated for one
//! annotated implementation, and the platform-conditional compiled surface.

use vstd::prelude::*;

use crate::enforce::contains_tag;
use crate::registry::Registry;
use crate::registry::FactView;
use crate::enforce::seq_contains_tag;
use crate::tags::chars_of;
use crate::tags::sep_free;
use crate::tags::lemma_split_sep_join;
use crate::text::string_of;
use crate::text::join_with;
use crate::text::join_tags;

verus! {

/// The identifier escape of one character: `_` becomes `q0` and `q` becomes
/// `q1`; every other character stands for itself. `q` always and only
/// begins an escape pair, so escaped text never holds an underscore and can
/// be decoded unambiguously.
pub open spec fn esc_char(c: char) -> Seq<char> {
    if c == '_' {
        seq!['q', '0']
    } else if c == 'q' {
        seq!['q', '1']
    } else {
        seq![c]
    }
}

/// The identifier escape of a whole name.
pub open spec fn esc(s: Seq<char>) -> Seq<char>
    decreases s.len(),
{
    if s.len() == 0 {
        Seq::empty()
    } else {
        esc_char(s[0]) + esc(s.drop_first())
    }
}

/// The escapes of a whole platform list, in order.
pub open spec fn esc_tags(tags: Seq<Seq<char>>) -> Seq<Seq<char>> {
    Seq::new(tags.len(), |i: int| esc(tags[i]))
}

/// Escaped text never holds the underscore separator.
pub proof fn lemma_esc_sep_free(s: Seq<char>)
    ensures
        sep_free(esc(s), '_'),
    decreases s.len(),
{
    if s.len() > 0 {
        lemma_esc_sep_free(s.drop_first());
        let e0 = esc_char(s[0]);
        assert(forall|i: int| 0 <= i < e0.len() ==> e0[i] != '_');
        assert forall|i: int| 0 <= i < esc(s).len() implies esc(s)[i] != '_' by {
            if i < e0.len() {
                assert(esc(s)[i] == e0[i]);
            } else {
                assert(esc(s)[i] == esc(s.drop_first())[i - e0.len()]);
            }
        }
    }
}

/// A push appends the escape of the pushed character.
proof fn lemma_esc_push(s: Seq<char>, c: char)
    ensures
        esc(s.push(c)) == esc(s) + esc_char(c),
    decreases s.len(),
{
    if s.len() == 0 {
        assert(s.push(c)[0] == c);
        assert(s.push(c).drop_first() =~= Seq::<char>::empty());
        assert(esc(Seq::<char>::empty()) == Seq::<char>::empty());
        assert(esc_char(c) + Seq::<char>::empty() =~= esc_char(c));
        assert(Seq::<char>::empty() + esc_char(c) =~= esc_char(c));
    } else {
        assert(s.push(c)[0] == s[0]);
        assert(s.push(c).drop_first() =~= s.drop_first().push(c));
        lemma_esc_push(s.drop_first(), c);
        assert(esc_char(s[0]) + (esc(s.drop_first()) + esc_char(c)) =~= (esc_char(s[0]) + esc(
            s.drop_first(),
        )) + esc_char(c));
    }
}

/// The escape is injective: equal escapes come from equal names.
pub proof fn lemma_esc_injective(a: Seq<char>, b: Seq<char>)
    requires
        esc(a) == esc(b),
    ensures
        a == b,
    decreases a.len(),
{
    if a.len() == 0 {
        if b.len() > 0 {
            assert(esc(b).len() >= esc_char(b[0]).len());
            assert(false);
        }
        assert(a =~= b);
    } else if b.len() == 0 {
        assert(esc(a).len() >= esc_char(a[0]).len());
        assert(false);
    } else {
        let ea = esc_char(a[0]);
        let eb = esc_char(b[0]);
        if a[0] == '_' || a[0] == 'q' {
            assert(esc(a)[0] == 'q');
            if !(b[0] == '_' || b[0] == 'q') {
                assert(esc(b)[0] == b[0] && b[0] != 'q');
                assert(false);
            }
            assert(esc(a)[1] == ea[1]);
            assert(esc(b)[1] == eb[1]);
            assert(a[0] == b[0]);
            assert(esc(a).skip(2) =~= esc(a.drop_first()));
            assert(esc(b).skip(2) =~= esc(b.drop_first()));
            lemma_esc_injective(a.drop_first(), b.drop_first());
        } else {
            assert(esc(a)[0] == a[0] && a[0] != 'q');
            if b[0] == '_' || b[0] == 'q' {
                assert(esc(b)[0] == 'q');
                assert(false);
            }
            assert(b[0] == a[0]);
            assert(esc(a).skip(1) =~= esc(a.drop_first()));
            assert(esc(b).skip(1) =~= esc(b.drop_first()));
            lemma_esc_injective(a.drop_first(), b.drop_first());
        }
        assert(a[0] == b[0]);
        assert(a.drop_first() == b.drop_first());
        assert(a.len() == b.len());
        assert forall|i: int| 0 <= i < a.len() implies a[i] == b[i] by {
            if i > 0 {
                assert(a[i] == a.drop_first()[i - 1]);
                assert(b[i] == b.drop_first()[i - 1]);
            }
        }
        assert(a =~= b);
    }
}

/// The identifier escape of a name.
#[verifier::loop_isolation(false)]
pub fn esc_str(s: &str) -> (r: String)
    ensures
        r@ == esc(s@),
{
    let cs = chars_of(s);
    let mut out: Vec<char> = Vec::new();
    let mut i: usize = 0;
    proof {
        assert(cs@.take(0) =~= Seq::<char>::empty());
        assert(out@ =~= esc(cs@.take(0)));
    }
    while i < cs.len()
        invariant
            0 <= i <= cs.len(),
            out@ == esc(cs@.take(i as int)),
        decreases cs.len() - i,
    {
        let c = cs[i];
        let ghost out_old = out@;
        if c == '_' {
            out.push('q');
            out.push('0');
        } else if c == 'q' {
            out.push('q');
            out.push('1');
        } else {
            out.push(c);
        }
        proof {
            assert(out@ =~= out_old + esc_char(cs@[i as int]));
            lemma_esc_push(cs@.take(i as int), cs@[i as int]);
            assert(cs@.take(i as int).push(cs@[i as int]) =~= cs@.take(i as int + 1));
        }
        i = i + 1;
    }
    proof {
        assert(cs@.take(cs@.len() as int) =~= cs@);
    }
    string_of(&out)
}

/// The identifier of the registry constant for one (trait, platform-list)
/// pair: the escaped trait name and the escaped tags joined by underscores,
/// e.g. `os_impl_Greeter_linux_windows`. Thanks to the escape the
/// derivation is injective: two different pairs never share an identifier.
pub open spec fn fact_ident_spec(trait_name: Seq<char>, platforms: Seq<Seq<char>>) -> Seq<char> {
    "os_impl_"@ + esc(trait_name) + "_"@ + join_with(esc_tags(platforms), "_"@)
}

/// The identifier of the registry constant for one (trait, platform-list)
/// pair.
#[verifier::loop_isolation(false)]
pub fn fact_ident(trait_name: &str, platforms: &Vec<String>) -> (r: String)
    ensures
        r@ == fact_ident_spec(trait_name@, platforms.deep_view()),
{
    let mut r = String::from_str("os_impl_");
    let e = esc_str(trait_name);
    r.append(e.as_str());
    r.append("_");
    let mut escaped: Vec<String> = Vec::new();
    let mut i: usize = 0;
    proof {
        assert(escaped.deep_view() =~= esc_tags(platforms.deep_view().take(0)));
    }
    while i < platforms.len()
        invariant
            0 <= i <= platforms.len(),
            escaped.deep_view() == esc_tags(platforms.deep_view().take(i as int)),
        decreases platforms.len() - i,
    {
        let ghost escaped_old = escaped.deep_view();
        let et = esc_str(platforms[i].as_str());
        escaped.push(et);
        proof {
            assert(escaped.deep_view() =~= escaped_old.push(esc(platforms.deep_view()[i as int])));
            assert(escaped.deep_view() =~= esc_tags(platforms.deep_view().take(i as int + 1)));
        }
        i = i + 1;
    }
    proof {
        assert(platforms.deep_view().take(platforms.deep_view().len() as int) =~= platforms
            .deep_view());
    }
    let tail = join_tags(&escaped, "_");
    r.append(tail.as_str());
    proof {
        assert(r@ =~= fact_ident_spec(trait_name@, platforms.deep_view()));
    }
    r
}

/// Law: two different (trait, platform-list) pairs never share a registry
/// identifier — for the non-empty platform lists the parser admits, the
/// derivation is injective in the pair.
pub proof fn lemma_fact_ident_injective(
    t1: Seq<char>,
    ps1: Seq<Seq<char>>,
    t2: Seq<char>,
    ps2: Seq<Seq<char>>,
)
    requires
        ps1.len() > 0,
        ps2.len() > 0,
        fact_ident_spec(t1, ps1) == fact_ident_spec(t2, ps2),
    ensures
        t1 == t2,
        ps1 == ps2,
{
    reveal_strlit("_");
    let sep: Seq<char> = "_"@;
    assert(sep =~= seq!['_']);
    let p: Seq<char> = "os_impl_"@;
    let parts1 = seq![esc(t1)] + esc_tags(ps1);
    let parts2 = seq![esc(t2)] + esc_tags(ps2);
    assert(parts1[0] == esc(t1));
    assert(parts2[0] == esc(t2));
    assert(parts1.drop_first() =~= esc_tags(ps1));
    assert(parts2.drop_first() =~= esc_tags(ps2));
    assert(join_with(parts1, sep) == esc(t1) + sep + join_with(esc_tags(ps1), sep));
    assert(join_with(parts2, sep) == esc(t2) + sep + join_with(esc_tags(ps2), sep));
    assert(fact_ident_spec(t1, ps1) =~= p + join_with(parts1, sep));
    assert(fact_ident_spec(t2, ps2) =~= p + join_with(parts2, sep));
    assert(join_with(parts1, sep) =~= (p + join_with(parts1, sep)).skip(p.len() as int));
    assert(join_with(parts2, sep) =~= (p + join_with(parts2, sep)).skip(p.len() as int));
    assert(join_with(parts1, sep) == join_with(parts2, sep));
    assert forall|i: int| 0 <= i < parts1.len() implies sep_free(#[trigger] parts1[i], '_') by {
        if i == 0 {
            lemma_esc_sep_free(t1);
        } else {
            lemma_esc_sep_free(ps1[i - 1]);
            assert(parts1[i] == esc(ps1[i - 1]));
        }
    }
    assert forall|i: int| 0 <= i < parts2.len() implies sep_free(#[trigger] parts2[i], '_') by {
        if i == 0 {
            lemma_esc_sep_free(t2);
        } else {
            lemma_esc_sep_free(ps2[i - 1]);
            assert(parts2[i] == esc(ps2[i - 1]));
        }
    }
    lemma_split_sep_join(parts1, '_');
    lemma_split_sep_join(parts2, '_');
    assert(parts1 == parts2);
    assert(esc(t1) == esc(t2));
    lemma_esc_injective(t1, t2);
    assert(esc_tags(ps1) == esc_tags(ps2));
    assert(ps1.len() == ps2.len());
    assert forall|i: int| 0 <= i < ps1.len() implies ps1[i] == ps2[i] by {
        assert(esc_tags(ps1)[i] == esc(ps1[i]));
        assert(esc_tags(ps2)[i] == esc(ps2[i]));
        lemma_esc_injective(ps1[i], ps2[i]);
    }
    assert(ps1 =~= ps2);
}

/// The conditional-compilation atom testing one platform tag.
pub open spec fn os_atom(t: Seq<char>) -> Seq<char> {
    "target_os = \""@ + t + "\""@
}

/// The atoms of a whole platform list, in order.
pub open spec fn os_atoms(tags: Seq<Seq<char>>) -> Seq<Seq<char>> {
    Seq::new(tags.len(), |i: int| os_atom(tags[i]))
}

/// The whole condition for a platform list: a disjunction of one atom per
/// tag, such as `any(target_os = "linux", target_os = "windows")`.
#[verifier::loop_isolation(false)]
pub fn os_condition(platforms: &Vec<String>) -> (r: String)
    ensures
        r@ == "any("@ + join_with(os_atoms(platforms.deep_view()), ", "@) + ")"@,
{
    let mut atoms: Vec<String> = Vec::new();
    let mut i: usize = 0;
    proof {
        assert(atoms.deep_view() =~= os_atoms(platforms.deep_view().take(0)));
    }
    while i < platforms.len()
        invariant
            0 <= i <= platforms.len(),
            atoms.deep_view() == os_atoms(platforms.deep_view().take(i as int)),
        decreases platforms.len() - i,
    {
        let ghost atoms_old = atoms.deep_view();
        let mut a = String::from_str("target_os = \"");
        a.append(platforms[i].as_str());
        a.append("\"");
        proof {
            assert(a@ =~= os_atom(platforms.deep_view()[i as int]));
        }
        atoms.push(a);
        proof {
            assert(atoms.deep_view() =~= atoms_old.push(os_atom(
                platforms.deep_view()[i as int],
            )));
            assert(atoms.deep_view() =~= os_atoms(platforms.deep_view().take(i as int + 1)));
        }
        i = i + 1;
    }
    proof {
        assert(platforms.deep_view().take(platforms.deep_view().len() as int) =~= platforms
            .deep_view());
    }
    let mut r = String::from_str("any(");
    let tail = join_tags(&atoms, ", ");
    r.append(tail.as_str());
    r.append(")");
    proof {
        assert(r@ =~= "any("@ + join_with(os_atoms(platforms.deep_view()), ", "@) + ")"@);
    }
    r
}

/// One platform tag as a quoted source-text literal.
pub open spec fn quoted(t: Seq<char>) -> Seq<char> {
    "\""@ + t + "\""@
}

/// A whole platform list as quoted source-text literals, in order.
pub open spec fn quoted_tags(tags: Seq<Seq<char>>) -> Seq<Seq<char>> {
    Seq::new(tags.len(), |i: int| quoted(tags[i]))
}

/// The registry binding for one (trait, platform-list) pair: a named
/// constant pairing the trait-name literal with the tag-literal array.
pub open spec fn fact_binding_spec(trait_name: Seq<char>, platforms: Seq<Seq<char>>) -> Seq<
    char,
> {
    "pub const "@ + fact_ident_spec(trait_name, platforms) + ": (&str, &[&str]) = ("@ + quoted(
        trait_name,
    ) + ", &["@ + join_with(quoted_tags(platforms), ", "@) + "]);"@
}

/// The registry binding emitted for one (trait, platform-list) pair,
/// e.g. `pub const os_impl_G_linux: (&str, &[&str]) = ("G", &["linux"]);`.
#[verifier::loop_isolation(false)]
pub fn fact_binding_source(trait_name: &str, platforms: &Vec<String>) -> (r: String)
    ensures
        r@ == fact_binding_spec(trait_name@, platforms.deep_view()),
{
    let mut lits: Vec<String> = Vec::new();
    let mut i: usize = 0;
    proof {
        assert(lits.deep_view() =~= quoted_tags(platforms.deep_view().take(0)));
    }
    while i < platforms.len()
        invariant
            0 <= i <= platforms.len(),
            lits.deep_view() == quoted_tags(platforms.deep_view().take(i as int)),
        decreases platforms.len() - i,
    {
        let ghost lits_old = lits.deep_view();
        let mut a = String::from_str("\"");
        a.append(platforms[i].as_str());
        a.append("\"");
        proof {
            assert(a@ =~= quoted(platforms.deep_view()[i as int]));
        }
        lits.push(a);
        proof {
            assert(lits.deep_view() =~= lits_old.push(quoted(platforms.deep_view()[i as int])));
            assert(lits.deep_view() =~= quoted_tags(platforms.deep_view().take(i as int + 1)));
        }
        i = i + 1;
    }
    proof {
        assert(platforms.deep_view().take(platforms.deep_view().len() as int) =~= platforms
            .deep_view());
    }
    let ident = fact_ident(trait_name, platforms);
    let mut r = String::from_str("pub const ");
    r.append(ident.as_str());
    r.append(": (&str, &[&str]) = (");
    let mut q = String::from_str("\"");
    q.append(trait_name);
    q.append("\"");
    proof {
        assert(q@ =~= quoted(trait_name@));
    }
    r.append(q.as_str());
    r.append(", &[");
    let tail = join_tags(&lits, ", ");
    r.append(tail.as_str());
    r.append("]);");
    proof {
        assert(r@ =~= fact_binding_spec(trait_name@, platforms.deep_view()));
    }
    r
}

/// One line of the registry artifact: the binding of one fact, terminated.
pub open spec fn binding_line_spec(f: FactView) -> Seq<char> {
    fact_binding_spec(f.trait_name, f.platforms) + "\n"@
}

/// The binding lines of all facts, in registry order.
pub open spec fn binding_lines_spec(facts: Seq<FactView>) -> Seq<char>
    decreases facts.len(),
{
    if facts.len() == 0 {
        Seq::empty()
    } else {
        binding_line_spec(facts[0]) + binding_lines_spec(facts.drop_first())
    }
}

/// The registry-constant identifiers of all facts, in registry order.
pub open spec fn fact_idents_spec(facts: Seq<FactView>) -> Seq<Seq<char>> {
    Seq::new(facts.len(), |i: int| fact_ident_spec(facts[i].trait_name, facts[i].platforms))
}

/// One more fact appends one more line.
proof fn lemma_binding_lines_push(facts: Seq<FactView>, f: FactView)
    ensures
        binding_lines_spec(facts.push(f)) == binding_lines_spec(facts) + binding_line_spec(f),
    decreases facts.len(),
{
    if facts.len() == 0 {
        assert(facts.push(f)[0] == f);
        assert(facts.push(f).drop_first() =~= Seq::<FactView>::empty());
        assert(binding_lines_spec(Seq::<FactView>::empty()) == Seq::<char>::empty());
        assert(binding_lines_spec(facts.push(f)) == binding_line_spec(f) + Seq::<char>::empty());
        assert(binding_line_spec(f) + Seq::<char>::empty() =~= binding_line_spec(f));
        assert(Seq::<char>::empty() + binding_line_spec(f) =~= binding_line_spec(f));
    } else {
        assert(facts.push(f)[0] == facts[0]);
        assert(facts.push(f).drop_first() =~= facts.drop_first().push(f));
        lemma_binding_lines_push(facts.drop_first(), f);
        assert(binding_line_spec(facts[0]) + (binding_lines_spec(facts.drop_first())
            + binding_line_spec(f)) =~= (binding_line_spec(facts[0]) + binding_lines_spec(
            facts.drop_first(),
        )) + binding_line_spec(f));
    }
}

/// The whole registry artifact for one build: every fact's binding line, in
/// registry order, then one collection constant aggregating the bindings for
/// iteration by the enforcement sites.
pub open spec fn registry_source_spec(facts: Seq<FactView>) -> Seq<char> {
    binding_lines_spec(facts) + "pub const OS_IMPLS: &[(&str, &[&str])] = &["@ + join_with(
        fact_idents_spec(facts),
        ", "@,
    ) + "];\n"@
}

/// The registry artifact aggregated from every registered fact.
#[verifier::loop_isolation(false)]
pub fn registry_source(reg: &Registry) -> (r: String)
    ensures
        r@ == registry_source_spec(reg@),
{
    let mut lines = String::new();
    let mut idents: Vec<String> = Vec::new();
    let mut i: usize = 0;
    proof {
        assert(reg@.take(0) =~= Seq::<FactView>::empty());
        assert(lines@ =~= binding_lines_spec(reg@.take(0)));
        assert(idents.deep_view() =~= fact_idents_spec(reg@.take(0)));
    }
    while i < reg.facts.len()
        invariant
            0 <= i <= reg.facts.len(),
            lines@ == binding_lines_spec(reg@.take(i as int)),
            idents.deep_view() == fact_idents_spec(reg@.take(i as int)),
        decreases reg.facts.len() - i,
    {
        proof {
            assert(reg@[i as int] == reg.facts@[i as int]@);
        }
        let ghost idents_old = idents.deep_view();
        let line = fact_binding_source(reg.facts[i].trait_name.as_str(), &reg.facts[i].platforms);
        lines.append(line.as_str());
        lines.append("\n");
        let ident = fact_ident(reg.facts[i].trait_name.as_str(), &reg.facts[i].platforms);
        idents.push(ident);
        proof {
            lemma_binding_lines_push(reg@.take(i as int), reg@[i as int]);
            assert(reg@.take(i as int).push(reg@[i as int]) =~= reg@.take(i as int + 1));
            assert(lines@ =~= binding_lines_spec(reg@.take(i as int + 1)));
            assert(idents.deep_view() =~= idents_old.push(fact_ident_spec(
                reg@[i as int].trait_name,
                reg@[i as int].platforms,
            )));
            assert(idents.deep_view() =~= fact_idents_spec(reg@.take(i as int + 1)));
        }
        i = i + 1;
    }
    proof {
        assert(reg@.take(reg@.len() as int) =~= reg@);
    }
    let mut r = lines;
    r.append("pub const OS_IMPLS: &[(&str, &[&str])] = &[");
    let tail = join_tags(&idents, ", ");
    r.append(tail.as_str());
    r.append("];\n");
    proof {
        assert(r@ =~= registry_source_spec(reg@));
    }
    r
}

/// Which generated artifacts a build for one target compiles, per
/// (struct, trait) pair with a declared requirement.
pub struct Surface {
    /// Some real, annotated implementation is part of this build.
    pub real_impl: bool,
    /// The generated failing stub is part of this build.
    pub stub: bool,
}

/// The platform-conditional compiled surface for one build target. Both the
/// real implementations and the failing stub are conditioned on the union of
/// the implemented platform tags that the aggregation step materializes for
/// the trait: a real implementation is compiled exactly when the target is in
/// that union, the stub exactly when it is not. So exactly one of the two is
/// part of every build — never both, never neither.
pub fn surface_for_target(implemented: &Vec<String>, target: &str) -> (r: Surface)
    ensures
        r.real_impl == seq_contains_tag(implemented.deep_view(), target@),
        r.stub == !seq_contains_tag(implemented.deep_view(), target@),
        r.real_impl != r.stub,
{
    let real_impl = contains_tag(implemented, target);
    let stub = !real_impl;
    Surface { real_impl, stub }
}

} // verus!
