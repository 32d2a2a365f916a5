//! Decoding of packed return values from a foreign memory buffer.
//!
//! A separately compiled program writes its results one after another into a
//! shared byte buffer. This crate reads them back: fixed-width numbers, a
//! three-word small/heap string record, and raw aggregates, all addressed by a
//! monotonically advancing cursor. The byte-level reads live in [`memory`],
//! the sequencing of whole values in [`cursor`], and [`get_values`] walks an
//! ordered list of requested variables, resolving each one's layout and
//! collecting the decoded values.

use vstd::prelude::*;

pub mod cursor;
pub mod memory;
pub mod values;

use crate::cursor::{reconstruct, ValueCursor};
use crate::values::{value_model_of, value_size_of, value_wf, Layout, Value, ValueModel};

verus! {

/// A handle for one runtime variable whose value is to be decoded.
#[derive(Clone, Copy, Debug, PartialEq, Eq, Structural)]
pub struct Variable(pub u32);

/// Maps variable handles to the layouts of their types.
///
/// Entry `i` describes `Variable(i)`; `None` (and any handle past the end)
/// means the layout of that variable cannot be resolved.
pub struct TypeEnv {
    pub layouts: Vec<Option<Layout>>,
}

/// Failure of a whole decoding pass, naming the variable at fault.
#[derive(Clone, Copy, Debug, PartialEq, Eq, Structural)]
pub enum DecodeError {
    UnresolvedLayout(Variable),
}

impl TypeEnv {
    /// What layout resolution returns for `var`.
    pub open spec fn resolve_spec(self, var: Variable) -> Option<Layout> {
        if var.0 < self.layouts@.len() {
            self.layouts@[var.0 as int]
        } else {
            None
        }
    }

    /// Resolves the layout of `var`, or `None` when the handle is unknown.
    pub fn resolve(&self, var: Variable) -> (r: Option<Layout>)
        ensures
            r == self.resolve_spec(var),
    {
        let i = var.0 as usize;
        if i < self.layouts.len() {
            self.layouts[i]
        } else {
            None
        }
    }
}

/// Whether every requested variable resolves to a layout.
pub open spec fn all_resolved(env: TypeEnv, vars: Seq<Variable>) -> bool {
    forall|i: int| 0 <= i < vars.len() ==> (#[trigger] env.resolve_spec(vars[i])) is Some
}

/// The index of the first variable that fails to resolve
/// (`vars.len()` when all resolve).
pub open spec fn first_unresolved(env: TypeEnv, vars: Seq<Variable>) -> int
    decreases vars.len(),
{
    if vars.len() == 0 {
        0
    } else if env.resolve_spec(vars[0]) is None {
        0
    } else {
        1 + first_unresolved(env, vars.drop_first())
    }
}

/// The cursor offset after decoding `vars` in order from `addr`.
/// Decoding stops at the first variable that fails to resolve.
pub open spec fn offset_after(s: Seq<u8>, env: TypeEnv, vars: Seq<Variable>, addr: int) -> int
    decreases vars.len(),
{
    if vars.len() == 0 {
        addr
    } else {
        match env.resolve_spec(vars[0]) {
            Some(l) => offset_after(
                s,
                env,
                vars.drop_first(),
                addr + value_size_of(s, addr, l),
            ),
            None => addr,
        }
    }
}

/// The values decoded for `vars` in order from `addr`, while they resolve.
pub open spec fn decoded_models(
    s: Seq<u8>,
    env: TypeEnv,
    vars: Seq<Variable>,
    addr: int,
) -> Seq<ValueModel>
    decreases vars.len(),
{
    if vars.len() == 0 {
        Seq::empty()
    } else {
        match env.resolve_spec(vars[0]) {
            Some(l) => seq![value_model_of(s, addr, l)] + decoded_models(
                s,
                env,
                vars.drop_first(),
                addr + value_size_of(s, addr, l),
            ),
            None => Seq::empty(),
        }
    }
}

/// The trust boundary of a decoding pass: every value decoded before the
/// first unresolvable variable lies within the buffer and is well formed.
pub open spec fn decode_wf(s: Seq<u8>, env: TypeEnv, vars: Seq<Variable>, addr: int) -> bool
    decreases vars.len(),
{
    if vars.len() == 0 {
        true
    } else {
        match env.resolve_spec(vars[0]) {
            Some(l) => value_wf(s, addr, l) && decode_wf(
                s,
                env,
                vars.drop_first(),
                addr + value_size_of(s, addr, l),
            ),
            None => true,
        }
    }
}

/// Decodes one value per requested variable, in request order, starting at
/// `start_offset` in `buf`, and returns the values together with the final
/// cursor offset. Fails fast: the first variable whose layout does not
/// resolve aborts the pass with no partial result list.
pub fn get_values(
    env: &TypeEnv,
    buf: &[u8],
    start_offset: usize,
    variables: &[Variable],
) -> (r: Result<(usize, Vec<Value>), DecodeError>)
    requires
        decode_wf(buf@, *env, variables@, start_offset as int),
    ensures
        match r {
            Ok(done) => {
                &&& all_resolved(*env, variables@)
                &&& done.0 == offset_after(buf@, *env, variables@, start_offset as int)
                &&& done.1@.map_values(|v: Value| v@) == decoded_models(
                    buf@,
                    *env,
                    variables@,
                    start_offset as int,
                )
            },
            Err(e) => {
                &&& !all_resolved(*env, variables@)
                &&& e == DecodeError::UnresolvedLayout(
                    variables@[first_unresolved(*env, variables@)],
                )
            },
        },
{
    let ghost s = buf@;
    let ghost vars = variables@;
    let mut cursor = ValueCursor::new(buf, start_offset);
    let mut result: Vec<Value> = Vec::new();
    let mut i: usize = 0;

    proof {
        assert(vars.skip(0) =~= vars);
    }

    while i < variables.len()
        invariant
            0 <= i <= vars.len(),
            vars == variables@,
            s == buf@,
            cursor.view.buf@ == s,
            result@.len() == i,
            forall|j: int| 0 <= j < i ==> (#[trigger] env.resolve_spec(vars[j])) is Some,
            decode_wf(s, *env, vars.skip(i as int), cursor.offset as int),
            offset_after(s, *env, vars, start_offset as int) == offset_after(
                s,
                *env,
                vars.skip(i as int),
                cursor.offset as int,
            ),
            decoded_models(s, *env, vars, start_offset as int) == result@.map_values(
                |v: Value| v@,
            ) + decoded_models(s, *env, vars.skip(i as int), cursor.offset as int),
        decreases vars.len() - i,
    {
        let var = variables[i];
        proof {
            assert(vars.skip(i as int)[0] == vars[i as int]);
            assert(vars.skip(i as int).drop_first() =~= vars.skip(i as int + 1));
        }
        match env.resolve(var) {
            None => {
                proof {
                    lemma_first_unresolved_at(*env, vars, i as int);
                    assert(!all_resolved(*env, vars));
                }
                return Err(DecodeError::UnresolvedLayout(var));
            },
            Some(layout) => {
                let ghost off0 = cursor.offset as int;
                let v = reconstruct(&mut cursor, layout);
                proof {
                    let f = |x: Value| x@;
                    assert(result@.push(v).map_values(f) =~= result@.map_values(f).push(v@));
                }
                result.push(v);
                i = i + 1;
            },
        }
    }
    proof {
        assert(vars.skip(vars.len() as int) =~= Seq::<Variable>::empty());
        assert(decoded_models(s, *env, vars, start_offset as int) =~= result@.map_values(
            |v: Value| v@,
        ));
    }
    Ok((cursor.offset, result))
}

/// Law: decoding never rewinds. The offset after decoding any list of
/// variables is at least the offset it started from.
pub proof fn lemma_offset_after_monotonic(s: Seq<u8>, env: TypeEnv, vars: Seq<Variable>, addr: int)
    ensures
        addr <= offset_after(s, env, vars, addr),
    decreases vars.len(),
{
    if vars.len() > 0 {
        match env.resolve_spec(vars[0]) {
            Some(l) => {
                lemma_offset_after_monotonic(
                    s,
                    env,
                    vars.drop_first(),
                    addr + value_size_of(s, addr, l),
                );
            },
            None => {},
        }
    }
}

/// Law: the cursor offset is monotone over the sequence of decode calls: the
/// offset after call `k + 1` is at least the offset after call `k`.
pub proof fn lemma_offset_step_monotonic(
    s: Seq<u8>,
    env: TypeEnv,
    vars: Seq<Variable>,
    addr: int,
    k: int,
)
    requires
        0 <= k < vars.len(),
    ensures
        offset_after(s, env, vars.take(k), addr) <= offset_after(s, env, vars.take(k + 1), addr),
{
    assert(vars.take(k + 1) =~= vars.take(k).push(vars[k]));
    lemma_offset_after_push(s, env, vars.take(k), vars[k], addr);
}

proof fn lemma_offset_after_push(
    s: Seq<u8>,
    env: TypeEnv,
    vars: Seq<Variable>,
    v: Variable,
    addr: int,
)
    ensures
        offset_after(s, env, vars, addr) <= offset_after(s, env, vars.push(v), addr),
    decreases vars.len(),
{
    if vars.len() == 0 {
        assert(vars.push(v)[0] == v);
        assert(vars.push(v).drop_first() =~= Seq::<Variable>::empty());
        match env.resolve_spec(v) {
            Some(l) => {
                assert(offset_after(
                    s,
                    env,
                    Seq::<Variable>::empty(),
                    addr + value_size_of(s, addr, l),
                ) == addr + value_size_of(s, addr, l));
                assert(offset_after(s, env, vars.push(v), addr) == addr + value_size_of(
                    s,
                    addr,
                    l,
                ));
            },
            None => {
                assert(offset_after(s, env, vars.push(v), addr) == addr);
            },
        }
        assert(offset_after(s, env, vars, addr) == addr);
    } else {
        assert(vars.push(v)[0] == vars[0]);
        assert(vars.push(v).drop_first() =~= vars.drop_first().push(v));
        match env.resolve_spec(vars[0]) {
            Some(l) => {
                lemma_offset_after_push(
                    s,
                    env,
                    vars.drop_first(),
                    v,
                    addr + value_size_of(s, addr, l),
                );
                assert(offset_after(s, env, vars.push(v), addr) == offset_after(
                    s,
                    env,
                    vars.drop_first().push(v),
                    addr + value_size_of(s, addr, l),
                ));
            },
            None => {
                assert(offset_after(s, env, vars.push(v), addr) == addr);
            },
        }
    }
}

/// Law: failure is fail-fast. When the variables before `k` all resolve and
/// the one at `k` does not, `k` is exactly the index the error reports.
pub proof fn lemma_first_unresolved_at(env: TypeEnv, vars: Seq<Variable>, k: int)
    requires
        0 <= k < vars.len(),
        forall|j: int| 0 <= j < k ==> (#[trigger] env.resolve_spec(vars[j])) is Some,
        env.resolve_spec(vars[k]) is None,
    ensures
        first_unresolved(env, vars) == k,
    decreases k,
{
    if k > 0 {
        assert(env.resolve_spec(vars[0]) is Some);
        assert(forall|j: int|
            0 <= j < k - 1 ==> vars.drop_first()[j] == vars[j + 1]
                && (#[trigger] env.resolve_spec(vars.drop_first()[j])) is Some);
        assert(vars.drop_first()[k - 1] == vars[k as int]);
        lemma_first_unresolved_at(env, vars.drop_first(), k - 1);
    }
}

} // verus!
