//! Test unit generation: expanding one base test identity and its
//! process-count set into an ordered sequence of invocable test units, one
//! per count, each with a unique, deterministic name.
//!
//! A unit name is `mpi_np_<count>`; sibling base tests never collide because
//! every unit is scoped under a namespace named after its base test.  Two
//! units derived from one base test may never share a name, so a duplicate
//! count in a declaration is rejected as a naming collision instead of
//! silently registering two same-named units.

use vstd::prelude::*;

use crate::decl::GenError;
use crate::digits::{lemma_decimal_injective, spec_decimal, u32_decimal};

verus! {

/// Expected-outcome policy of a base test: a normal pass, or an expected
/// failure (optionally with a message substring the host framework matches
/// against the failure output).
#[derive(Debug, PartialEq, Eq)]
pub enum ExpectedOutcome {
    Normal,
    ExpectedFailure { message: Option<Vec<u8>> },
}

/// Specification-level value of an `ExpectedOutcome`.
pub ghost enum ExpectedOutcomeView {
    Normal,
    ExpectedFailure { message: Option<Seq<u8>> },
}

impl View for ExpectedOutcome {
    type V = ExpectedOutcomeView;

    open spec fn view(&self) -> ExpectedOutcomeView {
        match self {
            ExpectedOutcome::Normal => ExpectedOutcomeView::Normal,
            ExpectedOutcome::ExpectedFailure { message: Some(m) } =>
                ExpectedOutcomeView::ExpectedFailure { message: Some(m@) },
            ExpectedOutcome::ExpectedFailure { message: None } =>
                ExpectedOutcomeView::ExpectedFailure { message: None },
        }
    }
}

impl ExpectedOutcome {
    /// An identical copy of the policy.
    pub fn duplicate(&self) -> (r: ExpectedOutcome)
        ensures
            r@ == self@,
    {
        match self {
            ExpectedOutcome::Normal => ExpectedOutcome::Normal,
            ExpectedOutcome::ExpectedFailure { message: Some(m) } =>
                ExpectedOutcome::ExpectedFailure { message: Some(copy_bytes(m.as_slice())) },
            ExpectedOutcome::ExpectedFailure { message: None } =>
                ExpectedOutcome::ExpectedFailure { message: None },
        }
    }
}

/// The identity of one declared base test: its name, the fully qualified
/// path that re-invokes exactly its bare body, and its expected-outcome
/// policy.  Derived once from the declaration site; read-only afterwards.
#[derive(Debug, PartialEq, Eq)]
pub struct TestIdentity {
    pub base_name: Vec<u8>,
    pub test_path: Vec<u8>,
    pub expected: ExpectedOutcome,
}

/// Specification-level value of a `TestIdentity`.
pub ghost struct TestIdentityView {
    pub base_name: Seq<u8>,
    pub test_path: Seq<u8>,
    pub expected: ExpectedOutcomeView,
}

impl View for TestIdentity {
    type V = TestIdentityView;

    open spec fn view(&self) -> TestIdentityView {
        TestIdentityView {
            base_name: self.base_name@,
            test_path: self.test_path@,
            expected: self.expected@,
        }
    }
}

/// One generated, independently invocable test unit: its name
/// (`mpi_np_<count>`), the namespace it is registered under (named after the
/// base test), its process count, and — inherited unchanged from the base
/// test — the isolation path and the expected-outcome policy.
#[derive(Debug, PartialEq, Eq)]
pub struct GeneratedUnit {
    pub scope: Vec<u8>,
    pub name: Vec<u8>,
    pub np: u32,
    pub test_path: Vec<u8>,
    pub expected: ExpectedOutcome,
}

/// Specification-level value of a `GeneratedUnit`.
pub ghost struct UnitView {
    pub scope: Seq<u8>,
    pub name: Seq<u8>,
    pub np: u32,
    pub test_path: Seq<u8>,
    pub expected: ExpectedOutcomeView,
}

impl View for GeneratedUnit {
    type V = UnitView;

    open spec fn view(&self) -> UnitView {
        UnitView {
            scope: self.scope@,
            name: self.name@,
            np: self.np,
            test_path: self.test_path@,
            expected: self.expected@,
        }
    }
}

/// The fixed unit-name prefix, `mpi_np_`.
pub open spec fn unit_name_prefix() -> Seq<u8> {
    seq![109u8, 112u8, 105u8, 95u8, 110u8, 112u8, 95u8]
}

/// The name of the unit for process count `np`: `mpi_np_<np>`.
pub open spec fn spec_unit_name(np: u32) -> Seq<u8> {
    unit_name_prefix() + spec_decimal(np as nat)
}

/// The fully scoped name of a unit: `<scope>::<name>`.
pub open spec fn spec_full_name(u: UnitView) -> Seq<u8> {
    u.scope + seq![58u8, 58u8] + u.name
}

/// The unit generated for one process count of a base test.
pub open spec fn spec_unit(identity: TestIdentityView, np: u32) -> UnitView {
    UnitView {
        scope: identity.base_name,
        name: spec_unit_name(np),
        np: np,
        test_path: identity.test_path,
        expected: identity.expected,
    }
}

/// Whether the count at position `b` repeats an earlier count.
pub open spec fn dup_at(counts: Seq<u32>, b: int) -> bool {
    exists|a: int| 0 <= a < b && counts[a] == counts[b]
}

/// The first position at or after `j` whose count repeats an earlier one, or
/// -1 when there is none.
pub open spec fn dup_from(counts: Seq<u32>, j: int) -> int
    decreases counts.len() - j,
    when 0 <= j <= counts.len()
{
    if j >= counts.len() {
        -1
    } else if dup_at(counts, j) {
        j
    } else {
        dup_from(counts, j + 1)
    }
}

proof fn lemma_dup_from_from(counts: Seq<u32>, i: int, j: int)
    requires
        0 <= i <= j <= counts.len(),
        forall|b: int| i <= b < j ==> !dup_at(counts, b),
        j == counts.len() || dup_at(counts, j),
    ensures
        ({
            let r = dup_from(counts, i);
            if j == counts.len() {
                r == -1
            } else {
                r == j
            }
        }),
    decreases j - i,
{
    if i < j {
        lemma_dup_from_from(counts, i + 1, j);
    }
}

/// Without a repeated count, all counts are pairwise distinct.
proof fn lemma_no_dup_distinct(counts: Seq<u32>)
    requires
        dup_from(counts, 0) < 0,
    ensures
        forall|a: int, b: int| 0 <= a < b < counts.len() ==> counts[a] != counts[b],
{
    assert forall|a: int, b: int| 0 <= a < b < counts.len() implies counts[a] != counts[b] by {
        lemma_dup_from_step(counts, 0, b);
    }
}

proof fn lemma_dup_from_step(counts: Seq<u32>, i: int, b: int)
    requires
        0 <= i <= b < counts.len(),
        dup_from(counts, i) < 0,
    ensures
        !dup_at(counts, b),
    decreases b - i,
{
    if i < b {
        lemma_dup_from_step(counts, i + 1, b);
    }
}

/// Generation of the unit set for one base test, at the specification
/// level: one unit per count, in declaration order; an empty count set is a
/// configuration error; a repeated count is a naming collision (reported
/// with the repeated count).
pub open spec fn spec_generate(identity: TestIdentityView, counts: Seq<u32>) -> Result<
    Seq<UnitView>,
    GenError,
> {
    if counts.len() == 0 {
        Err(GenError::Configuration)
    } else if dup_from(counts, 0) >= 0 {
        Err(GenError::NamingCollision { np: counts[dup_from(counts, 0)] })
    } else {
        Ok(Seq::new(counts.len(), |t: int| spec_unit(identity, counts[t])))
    }
}

/// Appends `src[from..to]` to `dst`.
pub fn append_range(dst: &mut Vec<u8>, src: &[u8], from: usize, to: usize)
    requires
        from <= to <= src@.len(),
    ensures
        final(dst)@ == old(dst)@ + src@.subrange(from as int, to as int),
{
    let ghost dst0 = dst@;
    proof {
        assert(dst@ =~= dst0 + src@.subrange(from as int, from as int));
    }
    let mut i = from;
    while i < to
        invariant
            from <= i <= to <= src@.len(),
            dst@ == dst0 + src@.subrange(from as int, i as int),
        decreases to - i,
    {
        dst.push(src[i]);
        proof {
            assert(dst0 + src@.subrange(from as int, i + 1 as int) =~= (dst0 + src@.subrange(
                from as int,
                i as int,
            )).push(src@[i as int]));
        }
        i = i + 1;
    }
}

/// An owned copy of a byte string.
pub fn copy_bytes(src: &[u8]) -> (r: Vec<u8>)
    ensures
        r@ == src@,
{
    let mut r: Vec<u8> = Vec::new();
    append_range(&mut r, src, 0, src.len());
    proof {
        assert(r@ =~= src@);
    }
    r
}

/// Builds the unit name `mpi_np_<np>`.
pub fn unit_name(np: u32) -> (r: Vec<u8>)
    ensures
        r@ == spec_unit_name(np),
{
    let mut r: Vec<u8> = Vec::new();
    r.push(109);
    r.push(112);
    r.push(105);
    r.push(95);
    r.push(110);
    r.push(112);
    r.push(95);
    proof {
        assert(r@ =~= unit_name_prefix());
    }
    let mut d = u32_decimal(np);
    r.append(&mut d);
    r
}

/// Distinct process counts yield distinct unit names.
pub proof fn lemma_unit_name_injective(a: u32, b: u32)
    ensures
        spec_unit_name(a) == spec_unit_name(b) ==> a == b,
{
    if spec_unit_name(a) == spec_unit_name(b) {
        let p = unit_name_prefix();
        let da = spec_decimal(a as nat);
        let db = spec_decimal(b as nat);
        assert((p + da).len() == (p + db).len());
        assert(da =~= db) by {
            assert(forall|i: int|
                0 <= i < da.len() ==> #[trigger] da[i] == (p + da)[p.len() + i]);
            assert(forall|i: int|
                0 <= i < db.len() ==> #[trigger] db[i] == (p + db)[p.len() + i]);
        }
        lemma_decimal_injective(a as nat, b as nat);
    }
}

impl GeneratedUnit {
    /// The fully scoped unit name, `<scope>::<name>`, under which the host
    /// framework registers the unit.
    pub fn full_name(&self) -> (r: Vec<u8>)
        ensures
            r@ == spec_full_name(self@),
    {
        let mut r = copy_bytes(self.scope.as_slice());
        r.push(58);
        r.push(58);
        append_range(&mut r, self.name.as_slice(), 0, self.name.len());
        proof {
            assert(r@ =~= spec_full_name(self@));
        }
        r
    }
}

/// Expands one base test into its units, one per declared count, in
/// declaration order.
///
/// Fails with a configuration error on an empty count set and with a naming
/// collision on a repeated count (never silently registering two same-named
/// units); otherwise returns exactly `counts.len()` units, whose names,
/// paths and policies are the ones `spec_generate` assigns.
pub fn generate_units(identity: &TestIdentity, counts: &Vec<u32>) -> (r: Result<
    Vec<GeneratedUnit>,
    GenError,
>)
    ensures
        match r {
            Ok(units) => spec_generate(identity@, counts@) matches Ok(models) && units@.len()
                == models.len() && (forall|t: int|
                0 <= t < models.len() ==> #[trigger] units@[t]@ == models[t]),
            Err(e) => spec_generate(identity@, counts@) == Err::<Seq<UnitView>, GenError>(e),
        },
{
    let k = counts.len();
    if k == 0 {
        return Err(GenError::Configuration);
    }
    let mut j: usize = 0;
    while j < k
        invariant
            j <= k,
            k == counts@.len(),
            forall|b: int| 0 <= b < j ==> !dup_at(counts@, b),
        decreases k - j,
    {
        let mut t: usize = 0;
        while t < j
            invariant
                t <= j < k,
                k == counts@.len(),
                forall|b: int| 0 <= b < j ==> !dup_at(counts@, b),
                forall|a: int| 0 <= a < t ==> counts@[a] != counts@[j as int],
            decreases j - t,
        {
            if counts[t] == counts[j] {
                proof {
                    assert(counts@[t as int] == counts@[j as int]);
                    assert(dup_at(counts@, j as int));
                    lemma_dup_from_from(counts@, 0, j as int);
                }
                return Err(GenError::NamingCollision { np: counts[j] });
            }
            t = t + 1;
        }
        j = j + 1;
    }
    proof {
        lemma_dup_from_from(counts@, 0, counts@.len() as int);
    }
    let mut units: Vec<GeneratedUnit> = Vec::new();
    let mut t: usize = 0;
    while t < k
        invariant
            t <= k,
            k == counts@.len(),
            counts@.len() >= 1,
            dup_from(counts@, 0) == -1,
            units@.len() == t,
            forall|q: int| 0 <= q < t ==> #[trigger] units@[q]@ == spec_unit(identity@, counts@[q]),
        decreases k - t,
    {
        let unit = GeneratedUnit {
            scope: copy_bytes(identity.base_name.as_slice()),
            name: unit_name(counts[t]),
            np: counts[t],
            test_path: copy_bytes(identity.test_path.as_slice()),
            expected: identity.expected.duplicate(),
        };
        proof {
            assert(unit@ == spec_unit(identity@, counts@[t as int]));
        }
        units.push(unit);
        t = t + 1;
    }
    Ok(units)
}

/// For every valid declaration with k counts, generation produces exactly k
/// units, whose names are pairwise distinct.  (Determinism comes with the
/// statement: the unit set is a specification-level function of the identity
/// and the counts alone.)
pub proof fn lemma_unit_names_distinct(identity: TestIdentityView, counts: Seq<u32>)
    ensures
        spec_generate(identity, counts) matches Ok(units) ==> {
            &&& units.len() == counts.len()
            &&& forall|a: int, b: int|
                0 <= a < b < units.len() ==> units[a].name != units[b].name
        },
{
    if spec_generate(identity, counts) is Ok {
        lemma_no_dup_distinct(counts);
        let units = Seq::new(counts.len(), |t: int| spec_unit(identity, counts[t]));
        assert forall|a: int, b: int| 0 <= a < b < units.len() implies units[a].name
            != units[b].name by {
            lemma_unit_name_injective(counts[a], counts[b]);
        }
    }
}

/// Every generated unit inherits the base test's isolation path and
/// expected-outcome policy unchanged, is scoped under the base test's name,
/// and carries the declared count of its position.
pub proof fn lemma_units_inherit_identity(identity: TestIdentityView, counts: Seq<u32>)
    ensures
        spec_generate(identity, counts) matches Ok(units) ==> forall|q: int|
            0 <= q < units.len() ==> {
                &&& (#[trigger] units[q]).scope == identity.base_name
                &&& units[q].test_path == identity.test_path
                &&& units[q].expected == identity.expected
                &&& units[q].np == counts[q]
            },
{
}

/// An empty count set fails generation with a configuration error, for
/// every identity: no units are produced from it.
pub proof fn lemma_empty_counts_rejected(identity: TestIdentityView)
    ensures
        spec_generate(identity, Seq::<u32>::empty()) == Err::<Seq<UnitView>, GenError>(
            GenError::Configuration,
        ),
{
}

/// Expansion of an externally expanded parametric matrix, at the
/// specification level: the generator runs once per case, unaware of the
/// other cases, and the per-case unit sequences are concatenated in case
/// order.
pub open spec fn spec_expand_matrix(cases: Seq<TestIdentityView>, counts: Seq<u32>) -> Result<
    Seq<UnitView>,
    GenError,
>
    decreases cases.len(),
{
    if cases.len() == 0 {
        Ok(Seq::<UnitView>::empty())
    } else {
        match spec_generate(cases[0], counts) {
            Err(e) => Err(e),
            Ok(first) => match spec_expand_matrix(cases.drop_first(), counts) {
                Err(e) => Err(e),
                Ok(rest) => Ok(first + rest),
            },
        }
    }
}

/// Expands every case of a parametric matrix with the same count set: one
/// unit per (case, count) pair, cases outermost, counts in declaration
/// order within each case.
pub fn expand_matrix(cases: &Vec<TestIdentity>, counts: &Vec<u32>) -> (r: Result<
    Vec<GeneratedUnit>,
    GenError,
>)
    ensures
        match r {
            Ok(units) => spec_expand_matrix(
                cases@.map_values(|c: TestIdentity| c@),
                counts@,
            ) matches Ok(models) && units@.len() == models.len() && (forall|t: int|
                0 <= t < models.len() ==> #[trigger] units@[t]@ == models[t]),
            Err(e) => spec_expand_matrix(cases@.map_values(|c: TestIdentity| c@), counts@) == Err::<
                Seq<UnitView>,
                GenError,
            >(e),
        },
{
    let ghost cv = cases@.map_values(|c: TestIdentity| c@);
    let mut units: Vec<GeneratedUnit> = Vec::new();
    let ghost mut done: Seq<UnitView> = Seq::empty();
    proof {
        assert(cv.skip(0) =~= cv);
        assert forall|rest: Seq<UnitView>| #[trigger] (Seq::<UnitView>::empty() + rest)
            == rest by {
            assert(Seq::<UnitView>::empty() + rest =~= rest);
        }
    }
    let mut c: usize = 0;
    while c < cases.len()
        invariant
            c <= cases@.len(),
            cv == cases@.map_values(|x: TestIdentity| x@),
            units@.len() == done.len(),
            forall|q: int| 0 <= q < done.len() ==> #[trigger] units@[q]@ == done[q],
            forall|rest: Seq<UnitView>|
                spec_expand_matrix(cv.skip(c as int), counts@) == Ok::<Seq<UnitView>, GenError>(
                    rest,
                ) ==> spec_expand_matrix(cv, counts@) == Ok::<Seq<UnitView>, GenError>(done + rest),
            forall|e: GenError|
                spec_expand_matrix(cv.skip(c as int), counts@) == Err::<Seq<UnitView>, GenError>(e)
                    ==> spec_expand_matrix(cv, counts@) == Err::<Seq<UnitView>, GenError>(e),
        decreases cases@.len() - c,
    {
        proof {
            assert(cv.skip(c as int).len() == cv.len() - c);
            assert(cv.skip(c as int)[0] == cv[c as int]);
            assert(cv.skip(c as int).drop_first() =~= cv.skip(c + 1 as int));
        }
        match generate_units(&cases[c], counts) {
            Err(e) => {
                return Err(e);
            },
            Ok(mut us) => {
                let ghost us0 = us@;
                let ghost units0 = units@;
                let ghost first = spec_generate(cv[c as int], counts@)->Ok_0;
                let ghost base = units@.len();
                let ghost old_done = done;
                proof {
                    assert forall|rest: Seq<UnitView>|
                        spec_expand_matrix(cv.skip(c + 1 as int), counts@) == Ok::<
                            Seq<UnitView>,
                            GenError,
                        >(rest) implies spec_expand_matrix(cv, counts@) == Ok::<
                        Seq<UnitView>,
                        GenError,
                    >((old_done + first) + rest) by {
                        assert(old_done + (first + rest) =~= (old_done + first) + rest);
                    }
                    done = done + first;
                }
                units.append(&mut us);
                proof {
                    assert forall|q: int| 0 <= q < done.len() implies #[trigger] units@[q]@
                        == done[q] by {
                        if q < base {
                            assert(units@[q] == units0[q]);
                            assert(done[q] == old_done[q]);
                        } else {
                            assert(units@[q] == us0[q - base]);
                            assert(done[q] == first[q - base]);
                        }
                    }
                }
            },
        }
        c = c + 1;
    }
    proof {
        assert(cv.skip(c as int) =~= Seq::<TestIdentityView>::empty());
        assert(spec_expand_matrix(cv.skip(c as int), counts@) == Ok::<Seq<UnitView>, GenError>(
            Seq::<UnitView>::empty(),
        ));
        assert(done + Seq::<UnitView>::empty() =~= done);
    }
    Ok(units)
}

/// A matrix of m cases crossed with k counts yields exactly k times m units.
pub proof fn lemma_matrix_unit_count(cases: Seq<TestIdentityView>, counts: Seq<u32>)
    ensures
        spec_expand_matrix(cases, counts) matches Ok(units) ==> units.len() == cases.len()
            * counts.len(),
    decreases cases.len(),
{
    if cases.len() > 0 && spec_expand_matrix(cases, counts) is Ok {
        lemma_matrix_unit_count(cases.drop_first(), counts);
        assert((cases.len() - 1) * counts.len() + counts.len() == cases.len() * counts.len())
            by (nonlinear_arith);
    }
}

/// Every unit a matrix expansion yields is scoped under the base name of
/// one of its cases.
proof fn lemma_matrix_scopes(cases: Seq<TestIdentityView>, counts: Seq<u32>)
    ensures
        spec_expand_matrix(cases, counts) matches Ok(units) ==> forall|q: int|
            0 <= q < units.len() ==> exists|c: int|
                0 <= c < cases.len() && (#[trigger] units[q]).scope == cases[c].base_name,
    decreases cases.len(),
{
    if cases.len() > 0 && spec_expand_matrix(cases, counts) is Ok {
        lemma_matrix_scopes(cases.drop_first(), counts);
        let first = spec_generate(cases[0], counts)->Ok_0;
        let rest = spec_expand_matrix(cases.drop_first(), counts)->Ok_0;
        let units = spec_expand_matrix(cases, counts)->Ok_0;
        assert forall|q: int| 0 <= q < units.len() implies exists|c: int|
            0 <= c < cases.len() && (#[trigger] units[q]).scope == cases[c].base_name by {
            if q < first.len() {
                assert(units[q].scope == cases[0].base_name);
            } else {
                let qq = q - first.len();
                assert(rest[qq] == units[q]);
                let c = choose|c: int|
                    0 <= c < cases.drop_first().len() && rest[qq].scope == cases.drop_first()[c].base_name;
                assert(cases.drop_first()[c] == cases[c + 1]);
                assert(units[q].scope == cases[c + 1].base_name);
            }
        }
    }
}

/// No unit appears twice in a matrix expansion: when the cases' base names
/// are pairwise distinct, all k times m units are pairwise distinguishable
/// by scope or name.
pub proof fn lemma_matrix_units_distinct(cases: Seq<TestIdentityView>, counts: Seq<u32>)
    requires
        forall|a: int, b: int|
            0 <= a < b < cases.len() ==> cases[a].base_name != cases[b].base_name,
    ensures
        spec_expand_matrix(cases, counts) matches Ok(units) ==> forall|a: int, b: int|
            0 <= a < b < units.len() ==> (#[trigger] units[a]).scope != (#[trigger] units[b]).scope
                || units[a].name != units[b].name,
    decreases cases.len(),
{
    if cases.len() > 0 && spec_expand_matrix(cases, counts) is Ok {
        lemma_matrix_units_distinct(cases.drop_first(), counts);
        lemma_matrix_scopes(cases.drop_first(), counts);
        lemma_unit_names_distinct(cases[0], counts);
        lemma_units_inherit_identity(cases[0], counts);
        let first = spec_generate(cases[0], counts)->Ok_0;
        let rest = spec_expand_matrix(cases.drop_first(), counts)->Ok_0;
        let units = spec_expand_matrix(cases, counts)->Ok_0;
        assert forall|a: int, b: int| 0 <= a < b < units.len() implies (
        #[trigger] units[a]).scope != (#[trigger] units[b]).scope || units[a].name
            != units[b].name by {
            if a < first.len() && b < first.len() {
                assert(units[a] == first[a] && units[b] == first[b]);
            } else if a < first.len() && b >= first.len() {
                let bb = b - first.len();
                assert(units[b] == rest[bb]);
                let c = choose|c: int|
                    0 <= c < cases.drop_first().len() && rest[bb].scope == cases.drop_first()[c].base_name;
                assert(cases.drop_first()[c] == cases[c + 1]);
                assert(units[a].scope == cases[0].base_name);
                assert(cases[0].base_name != cases[c + 1].base_name);
            } else {
                assert(units[a] == rest[a - first.len()] && units[b] == rest[b - first.len()]);
            }
        }
    }
}

/// No colon byte occurs in `s` (identifiers are colon-free; only the `::`
/// separator of a path holds colons).
pub open spec fn colon_free(s: Seq<u8>) -> bool {
    forall|i: int| 0 <= i < s.len() ==> #[trigger] s[i] != 58
}

/// Splitting a fully scoped name at its separator is unambiguous: two equal
/// fully scoped names whose scopes are colon-free agree on scope and name.
pub proof fn lemma_full_name_injective(u1: UnitView, u2: UnitView)
    requires
        colon_free(u1.scope),
        colon_free(u2.scope),
        spec_full_name(u1) == spec_full_name(u2),
    ensures
        u1.scope == u2.scope,
        u1.name == u2.name,
{
    let s1 = u1.scope;
    let n1 = u1.name;
    let s2 = u2.scope;
    let n2 = u2.name;
    let f = spec_full_name(u1);
    if s1.len() < s2.len() {
        assert(f[s1.len() as int] == 58);
        assert(spec_full_name(u2)[s1.len() as int] == s2[s1.len() as int]);
        assert(false);
    } else if s2.len() < s1.len() {
        assert(spec_full_name(u2)[s2.len() as int] == 58);
        assert(f[s2.len() as int] == s1[s2.len() as int]);
        assert(false);
    }
    assert(s1.len() == s2.len());
    assert(s1 =~= s2) by {
        assert(forall|i: int| 0 <= i < s1.len() ==> #[trigger] s1[i] == f[i]);
        assert(forall|i: int| 0 <= i < s2.len() ==> #[trigger] s2[i] == spec_full_name(u2)[i]);
    }
    assert(seq![58u8, 58u8].len() == 2);
    assert(f.len() == s1.len() + 2 + n1.len());
    assert(spec_full_name(u2).len() == s2.len() + 2 + n2.len());
    assert(n1.len() == n2.len());
    assert(n1 =~= n2) by {
        assert(forall|i: int|
            0 <= i < n1.len() ==> #[trigger] n1[i] == f[s1.len() + 2 + i]);
        assert(forall|i: int|
            0 <= i < n2.len() ==> #[trigger] n2[i] == spec_full_name(u2)[s2.len() + 2 + i]);
    }
}

/// With pairwise distinct, colon-free base names, every unit of a matrix
/// expansion is registered under a distinct fully scoped name: no unit
/// appears twice, the names disambiguated by both the case and the count.
pub proof fn lemma_matrix_full_names_distinct(cases: Seq<TestIdentityView>, counts: Seq<u32>)
    requires
        forall|a: int, b: int|
            0 <= a < b < cases.len() ==> cases[a].base_name != cases[b].base_name,
        forall|c: int| 0 <= c < cases.len() ==> colon_free(#[trigger] cases[c].base_name),
    ensures
        spec_expand_matrix(cases, counts) matches Ok(units) ==> forall|a: int, b: int|
            0 <= a < b < units.len() ==> spec_full_name(#[trigger] units[a]) != spec_full_name(
                #[trigger] units[b],
            ),
{
    if spec_expand_matrix(cases, counts) is Ok {
        lemma_matrix_units_distinct(cases, counts);
        lemma_matrix_scopes(cases, counts);
        let units = spec_expand_matrix(cases, counts)->Ok_0;
        assert forall|a: int, b: int| 0 <= a < b < units.len() implies spec_full_name(
            #[trigger] units[a],
        ) != spec_full_name(#[trigger] units[b]) by {
            assert(exists|c: int| 0 <= c < cases.len() && units[a].scope == cases[c].base_name);
            assert(exists|c: int| 0 <= c < cases.len() && units[b].scope == cases[c].base_name);
            let ca = choose|c: int|
                0 <= c < cases.len() && units[a].scope == cases[c].base_name;
            let cb = choose|c: int|
                0 <= c < cases.len() && units[b].scope == cases[c].base_name;
            assert(colon_free(units[a].scope));
            assert(colon_free(units[b].scope));
            if spec_full_name(units[a]) == spec_full_name(units[b]) {
                lemma_full_name_injective(units[a], units[b]);
            }
        }
    }
}

/// The first position at or after `i` where `::` stands in `s`, or -1.
pub open spec fn first_sep(s: Seq<u8>, i: int) -> int
    decreases s.len() - i,
    when 0 <= i
{
    if i + 2 > s.len() {
        -1
    } else if s[i] == 58 && s[i + 1] == 58 {
        i
    } else {
        first_sep(s, i + 1)
    }
}

/// The path that re-invokes only the original test body, resolved relative
/// to the enclosing module path: the module path with its leading crate-name
/// segment removed, joined to the base name with `::`; when the module path
/// is a single segment (the crate root), the base name alone.
pub open spec fn spec_resolve_test_path(scope_path: Seq<u8>, fn_name: Seq<u8>) -> Seq<u8> {
    let p = first_sep(scope_path, 0);
    if p >= 0 {
        scope_path.subrange(p + 2, scope_path.len() as int) + seq![58u8, 58u8] + fn_name
    } else {
        fn_name
    }
}

/// Resolves the isolation path for a base test declared in the module named
/// by `scope_path` (a `::`-delimited path whose first segment is the crate
/// name), as `spec_resolve_test_path` describes.
pub fn resolve_test_path(scope_path: &[u8], fn_name: &[u8]) -> (r: Vec<u8>)
    ensures
        r@ == spec_resolve_test_path(scope_path@, fn_name@),
{
    let n = scope_path.len();
    let mut i: usize = 0;
    while i < n && i + 1 < n
        invariant
            0 <= i <= n,
            n == scope_path@.len(),
            first_sep(scope_path@, 0) == first_sep(scope_path@, i as int),
        decreases n - i,
    {
        if scope_path[i] == 58 && scope_path[i + 1] == 58 {
            let mut r: Vec<u8> = Vec::new();
            append_range(&mut r, scope_path, i + 2, n);
            r.push(58);
            r.push(58);
            append_range(&mut r, fn_name, 0, fn_name.len());
            proof {
                assert(first_sep(scope_path@, i as int) == i);
                assert(fn_name@.subrange(0, fn_name@.len() as int) =~= fn_name@);
                assert(r@ =~= spec_resolve_test_path(scope_path@, fn_name@));
            }
            return r;
        }
        i = i + 1;
    }
    proof {
        assert(first_sep(scope_path@, i as int) == -1);
    }
    copy_bytes(fn_name)
}

} // verus!
