//! The built-in functions installed into a fresh machine scope, and the pure
//! core of `print`: rendering an argument row into one space-joined line.
//! Writing the line out is the host's job — the machine only accumulates
//! output lines, so everything here stays a function of its inputs.

use vstd::prelude::*;
use vstd::string::StringExecFns;

use crate::errors::VmError;
use crate::pyobject::{
    lemma_vals_of, render_val, str_res_view, val_of, vals_of, NativeFunction, PyObject, Val,
};
use crate::vm::Scope;

verus! {

/// Installs the built-in bindings into a fresh scope. The one shipped
/// built-in is `print`; any further host-provided function conforming to the
/// native call convention would be bound here the same way.
pub fn fill_scope(scope: &mut Scope)
    ensures
        final(scope)@ == old(scope)@.insert("print"@, (Val::FuncV { f: NativeFunction::Print })),
{
    scope.insert(
        String::from_str("print"),
        PyObject::RustFunction { function: NativeFunction::Print },
    );
}

/// The space-joined rendering of `args[i..]`, with a separating space before
/// each element but the row's first; the first failing element's error
/// otherwise. `print` emits exactly this line for its argument row.
pub open spec fn join_from(args: Seq<Val>, i: int) -> Result<Seq<char>, VmError>
    decreases args.len() - i,
{
    if i < 0 || i >= args.len() {
        Ok(Seq::<char>::empty())
    } else {
        match render_val(args[i]) {
            Err(e) => Err(e),
            Ok(r) => match join_from(args, i + 1) {
                Err(e) => Err(e),
                Ok(t) => Ok(
                    (if i == 0 {
                        r
                    } else {
                        seq![' '] + r
                    }) + t,
                ),
            },
        }
    }
}

/// `rest` with `p` written before it, errors passed through.
spec fn prepend(p: Seq<char>, rest: Result<Seq<char>, VmError>) -> Result<Seq<char>, VmError> {
    match rest {
        Ok(t) => Ok(p + t),
        Err(e) => Err(e),
    }
}

/// Renders `args` into the one line `print` would emit: each argument
/// rendered, joined with single spaces; fails with the first argument that
/// has no rendering.
pub fn print_line(args: &Vec<PyObject>) -> (r: Result<String, VmError>)
    ensures
        str_res_view(r) == join_from(vals_of(args@), 0),
{
    proof {
        lemma_vals_of(args@);
        reveal_strlit(" ");
    }
    let ghost vals: Seq<Val> = vals_of(args@);
    let mut line: String = String::new();
    let mut i: usize = 0;
    proof {
        match join_from(vals, 0) {
            Ok(t) => {
                assert(Seq::<char>::empty() + t =~= t);
            },
            Err(_) => {},
        }
    }
    while i < args.len()
        invariant
            i <= args@.len(),
            vals == vals_of(args@),
            vals.len() == args@.len(),
            forall|k: int| 0 <= k < args@.len() ==> #[trigger] vals[k] == val_of(args@[k]),
            join_from(vals, 0) == prepend(line@, join_from(vals, i as int)),
        decreases args@.len() - i,
    {
        let ghost line0: Seq<char> = line@;
        match (&args[i]).str() {
            Ok(s) => {
                proof {
                    reveal_strlit(" ");
                }
                if i > 0 {
                    line.append(" ");
                }
                line.append(s.as_str());
                proof {
                    let sep: Seq<char> = if i == 0 {
                        Seq::<char>::empty()
                    } else {
                        seq![' ']
                    };
                    assert(line@ =~= line0 + sep + s@);
                    match join_from(vals, i + 1) {
                        Ok(t) => {
                            assert(line0 + ((if i == 0 {
                                s@
                            } else {
                                seq![' '] + s@
                            }) + t) =~= (line0 + sep + s@) + t);
                        },
                        Err(_) => {},
                    }
                }
            },
            Err(e) => {
                return Err(e);
            },
        }
        i = i + 1;
    }
    proof {
        assert(line@ + Seq::<char>::empty() =~= line@);
    }
    Ok(line)
}

} // verus!
