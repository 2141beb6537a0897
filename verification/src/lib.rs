//! Test-matrix expansion and distributed-run orchestration for
//! process-parallel tests.
//!
//! A test body is declared once, together with a set of process counts
//! (`np = [2, 4]` or `np(2, 4)`); the library expands that declaration into
//! one invocable test unit per count, each unit carrying a unique name, the
//! path needed to re-invoke the original body in isolation, and the declared
//! expected-outcome policy.  At invocation time a unit is run by launching
//! an external process launcher (`mpiexec`) on the current test binary; the
//! launcher's outcome is mapped back into a single pass/fail/error verdict.
//!
//! Identifiers, module paths and messages are handled as byte strings
//! (`Vec<u8>` / `&[u8]`, UTF-8 at the boundary).

use vstd::prelude::*;

pub mod decl;
pub mod digits;
pub mod runner;
pub mod units;

use crate::decl::{spec_parse_np, GenError};
use crate::units::{
    spec_generate, spec_resolve_test_path, ExpectedOutcome, ExpectedOutcomeView, GeneratedUnit,
    TestIdentity, TestIdentityView, UnitView,
};

verus! {

/// Expansion of one annotated test declaration, at the specification level:
/// parse the process counts out of the attribute text, resolve the path
/// that re-invokes the bare body, then generate one unit per count.
pub open spec fn spec_mpi_test(
    attr: Seq<u8>,
    scope_path: Seq<u8>,
    fn_name: Seq<u8>,
    expected: ExpectedOutcomeView,
) -> Result<Seq<UnitView>, GenError> {
    match spec_parse_np(attr) {
        Err(e) => Err(e),
        Ok(counts) => spec_generate(
            TestIdentityView {
                base_name: fn_name,
                test_path: spec_resolve_test_path(scope_path, fn_name),
                expected: expected,
            },
            counts,
        ),
    }
}

/// Expands one annotated test declaration into its concrete test units.
///
/// `attr` is the attribute text (`np = [2, 4]`, `np(2, 4)`, or a single
/// bare integer in either form), `scope_path` the `::`-delimited path of
/// the module enclosing the declaration (first segment: the crate name),
/// `fn_name` the base test's identifier, and `expected` its
/// expected-outcome policy.  On success the units come in declaration
/// order, one per count, named `mpi_np_<count>` and scoped under the base
/// test's name; every malformed, empty or colliding declaration is mapped
/// to the exact error `spec_mpi_test` gives it.
pub fn mpi_test(
    attr: &[u8],
    scope_path: &[u8],
    fn_name: &[u8],
    expected: &ExpectedOutcome,
) -> (r: Result<Vec<GeneratedUnit>, GenError>)
    ensures
        match r {
            Ok(units) => spec_mpi_test(attr@, scope_path@, fn_name@, expected@) matches Ok(models)
                && units@.len() == models.len() && (forall|t: int|
                0 <= t < models.len() ==> #[trigger] units@[t]@ == models[t]),
            Err(e) => spec_mpi_test(attr@, scope_path@, fn_name@, expected@) == Err::<
                Seq<UnitView>,
                GenError,
            >(e),
        },
{
    match crate::decl::parse_np(attr) {
        Err(e) => Err(e),
        Ok(counts) => {
            let identity = TestIdentity {
                base_name: crate::units::copy_bytes(fn_name),
                test_path: crate::units::resolve_test_path(scope_path, fn_name),
                expected: expected.duplicate(),
            };
            crate::units::generate_units(&identity, &counts)
        },
    }
}

/// Regeneration from an unchanged declaration is a pure function: the whole
/// expansion is specified as a function of the declaration alone, so equal
/// inputs yield the identical unit set, however often they are expanded.
pub proof fn lemma_expansion_idempotent(
    attr1: Seq<u8>,
    scope_path1: Seq<u8>,
    fn_name1: Seq<u8>,
    expected1: ExpectedOutcomeView,
    attr2: Seq<u8>,
    scope_path2: Seq<u8>,
    fn_name2: Seq<u8>,
    expected2: ExpectedOutcomeView,
)
    requires
        attr1 == attr2,
        scope_path1 == scope_path2,
        fn_name1 == fn_name2,
        expected1 == expected2,
    ensures
        spec_mpi_test(attr1, scope_path1, fn_name1, expected1) == spec_mpi_test(
            attr2,
            scope_path2,
            fn_name2,
            expected2,
        ),
{
}

/// A declaration of a single bare integer (no list) is accepted, for every
/// positive count, and yields exactly one unit.
pub proof fn lemma_single_integer_declaration(
    scope_path: Seq<u8>,
    fn_name: Seq<u8>,
    expected: ExpectedOutcomeView,
    n: u32,
)
    requires
        n >= 1,
    ensures
        ({
            let identity = TestIdentityView {
                base_name: fn_name,
                test_path: spec_resolve_test_path(scope_path, fn_name),
                expected: expected,
            };
            spec_mpi_test(crate::decl::single_integer_attr(n), scope_path, fn_name, expected)
                == Ok::<Seq<UnitView>, GenError>(seq![crate::units::spec_unit(identity, n)])
        }),
{
    crate::decl::lemma_single_integer_accepted(n);
    let identity = TestIdentityView {
        base_name: fn_name,
        test_path: spec_resolve_test_path(scope_path, fn_name),
        expected: expected,
    };
    let counts: Seq<u32> = seq![n];
    assert(!crate::units::dup_at(counts, 0));
    assert(crate::units::dup_from(counts, 1) == -1);
    assert(crate::units::dup_from(counts, 0) == -1);
    assert(Seq::new(counts.len(), |t: int| crate::units::spec_unit(identity, counts[t])) =~= seq![
        crate::units::spec_unit(identity, n),
    ]);
}

} // verus!
