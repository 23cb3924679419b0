//! Echoing arguments: joining them with single spaces.

use vstd::prelude::*;
use vstd::string::*;

verus! {

/// The arguments from index `i` on joined with single spaces.
pub open spec fn spec_join_from(args: Seq<Seq<char>>, i: int) -> Seq<char>
    decreases args.len() - i,
{
    if i < 0 || i >= args.len() {
        Seq::empty()
    } else if i == args.len() - 1 {
        args[i]
    } else {
        args[i] + seq![' '] + spec_join_from(args, i + 1)
    }
}

/// The arguments joined with single spaces, then a line feed unless it is
/// omitted.
pub fn echo_line(args: &Vec<String>, omit_newline: bool) -> (r: String)
    ensures
        r@ == spec_join_from(args.deep_view(), 0) + if omit_newline {
            Seq::<char>::empty()
        } else {
            seq!['\n']
        },
{
    let ghost dv = args.deep_view();
    let mut out = String::new();
    let mut i: usize = 0;
    let n = args.len();
    proof {
        assert(dv.len() == args@.len());
        if n == 0 {
            assert(out@ =~= spec_join_from(dv, 0));
        }
        assert(Seq::<char>::empty() + spec_join_from(dv, 0) =~= spec_join_from(dv, 0));
    }
    while i < n
        invariant
            i <= n == args@.len(),
            dv == args.deep_view(),
            spec_join_from(dv, 0) == out@ + spec_join_from(dv, i as int),
        decreases n - i,
    {
        proof {
            assert(dv.len() == args@.len());
            assert(dv[i as int] == args@[i as int]@);
        }
        let ghost out_old = out@;
        out.append(args[i].as_str());
        if i + 1 < n {
            proof {
                reveal_strlit(" ");
                assert(" "@ =~= seq![' ']);
            }
            out.append(" ");
            proof {
                assert(out@ =~= out_old + dv[i as int] + seq![' ']);
                assert(out_old + (dv[i as int] + seq![' '] + spec_join_from(dv, i as int + 1))
                    =~= out@ + spec_join_from(dv, i as int + 1));
            }
        } else {
            proof {
                assert(out@ + Seq::<char>::empty() =~= out@);
            }
        }
        i += 1;
    }
    proof {
        if n > 0 {
            assert(out@ + Seq::<char>::empty() =~= out@);
        }
    }
    if !omit_newline {
        proof {
            reveal_strlit("\n");
            assert("\n"@ =~= seq!['\n']);
        }
        out.append("\n");
        proof {
            assert(out@ =~= spec_join_from(dv, 0) + seq!['\n']);
        }
    } else {
        proof {
            assert(out@ + Seq::<char>::empty() =~= out@);
        }
    }
    out
}

} // verus!
