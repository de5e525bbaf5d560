//! What a loop over connections comes to: one connection for each value of
//! the index and each connection of the body, in that order, with the
//! ranges that the body has under that value.

use vstd::prelude::*;
use crate::base::BaseView;
use crate::deferred::{command, commands, forloop, unroll, State};
use crate::frame::{lemma_connect, lemma_expr, value};
use crate::ir::{BaseCmd, Command, Component, Connect, Loop};
use crate::maps::{find_last, prefix};
use crate::monosig::SigView;

verus! {

/// Whether every command of `cmds` is a connection.
pub open spec fn all_connects(cmds: Seq<Command>) -> bool {
    forall|k: int| 0 <= k < cmds.len() ==> (#[trigger] cmds[k]) is Connect
}

/// Whether the concrete connection `out` of `s` is what `con` comes to
/// under `binding`: its ports are what the port table holds for the ports
/// of `con`, and the ends of its ranges are literals, the values that the
/// ends of the ranges of `con` have under `binding`.
pub open spec fn translates(
    ul: Component,
    s: SigView,
    binding: Seq<(usize, u64)>,
    con: Connect,
    out: Connect,
) -> bool {
    &&& Some(out.src.port) == find_last(s.port_map, con.src.port)
    &&& Some(out.dst.port) == find_last(s.port_map, con.dst.port)
    &&& s.base.concrete(out.src.start) is Some
    &&& s.base.concrete(out.src.end) is Some
    &&& s.base.concrete(out.dst.start) is Some
    &&& s.base.concrete(out.dst.end) is Some
    &&& s.base.concrete(out.src.start) == value(ul, binding, con.src.start)
    &&& s.base.concrete(out.src.end) == value(ul, binding, con.src.end)
    &&& s.base.concrete(out.dst.start) == value(ul, binding, con.dst.start)
    &&& s.base.concrete(out.dst.end) == value(ul, binding, con.dst.end)
}

/// Whether the command `cmd` of `s` is the connection that `src` comes to
/// under `binding`.
pub open spec fn emitted(
    ul: Component,
    s: SigView,
    binding: Seq<(usize, u64)>,
    src: Command,
    cmd: BaseCmd,
) -> bool {
    &&& src matches Command::Connect(con)
    &&& cmd matches BaseCmd::Connect(out)
    &&& translates(ul, s, binding, con, out)
}

/// `t` differs from `s` at most in the value stores and in the command
/// stream, each of which begins with what it held in `s`.
pub open spec fn body_grows(s: SigView, t: SigView) -> bool {
    &&& s.values_grow(SigView { base: BaseView { cmds: s.base.cmds, ..t.base }, ..t })
    &&& prefix(s.base.cmds, t.base.cmds)
}

/// What a connection came to, it still is after the stores have grown.
proof fn lemma_emitted_stays(
    ul: Component,
    s: SigView,
    t: SigView,
    binding: Seq<(usize, u64)>,
    src: Command,
    cmd: BaseCmd,
)
    requires
        emitted(ul, s, binding, src, cmd),
        body_grows(s, t),
    ensures
        emitted(ul, t, binding, src, cmd),
{
    let out = cmd->Connect_0;
    assert(t.base.exprs[out.src.start as int] == s.base.exprs[out.src.start as int]);
    assert(t.base.exprs[out.src.end as int] == s.base.exprs[out.src.end as int]);
    assert(t.base.exprs[out.dst.start as int] == s.base.exprs[out.dst.start as int]);
    assert(t.base.exprs[out.dst.end as int] == s.base.exprs[out.dst.end as int]);
}

/// The place in the command stream of the connection that the iteration
/// `it` of a loop gives for the command `k` of its body of `n` commands,
/// where the stream held `len` commands before the loop.
pub open spec fn place(len: int, n: int, it: int, k: int) -> int {
    len + it * n + k
}

/// Translating connections appends one connection for each, in order:
/// what the connection comes to under the binding. The pass is left as it
/// is, and so is the binding.
pub proof fn law_connections_in_order(
    prog: Seq<Component>,
    c: usize,
    ul: Component,
    st: State,
    cmds: Seq<Command>,
    k: int,
)
    requires
        all_connects(cmds),
        0 <= k <= cmds.len(),
        commands(prog, c, ul, st, cmds, k) is Ok,
        commands(prog, c, ul, st, cmds, k)->Ok_0.sig.base.fits(),
    ensures
        ({
            let st1 = commands(prog, c, ul, st, cmds, k)->Ok_0;
            let len = st.sig.base.cmds.len();
            &&& st1.pass == st.pass
            &&& body_grows(st.sig, st1.sig)
            &&& st1.sig.base.cmds.len() == len + cmds.len() - k
            &&& forall|j: int|
                k <= j < cmds.len() ==> emitted(
                    ul,
                    st1.sig,
                    st.sig.binding,
                    #[trigger] cmds[j],
                    st1.sig.base.cmds[len + j - k],
                )
        }),
    decreases cmds.len() - k,
{
    if k < cmds.len() {
        let con = cmds[k]->Connect_0;
        let (s1, con1) = st.sig.connect(ul, con)->Ok_0;
        let mid = st.with_sig(s1).emit(Some(BaseCmd::Connect(con1)));
        assert(command(prog, c, ul, st, cmds[k])->Ok_0.0.emit(command(prog, c, ul, st, cmds[k])->Ok_0.1) == mid);
        law_connections_in_order(prog, c, ul, mid, cmds, k + 1);
        let st1 = commands(prog, c, ul, mid, cmds, k + 1)->Ok_0;
        lemma_connect(st.sig, ul, con);
        let len = st.sig.base.cmds.len();
        assert(s1.base.fits());
        assert(emitted(ul, mid.sig, st.sig.binding, cmds[k], mid.sig.base.cmds[len as int]));
        lemma_emitted_stays(ul, mid.sig, st1.sig, st.sig.binding, cmds[k], mid.sig.base.cmds[len as int]);
        assert(st1.sig.base.cmds[len as int] == mid.sig.base.cmds[len as int]);
        assert forall|j: int| k <= j < cmds.len() implies emitted(
            ul,
            st1.sig,
            st.sig.binding,
            #[trigger] cmds[j],
            st1.sig.base.cmds[len + j - k],
        ) by {
            if j > k {
                assert(len + j - k == mid.sig.base.cmds.len() + j - (k + 1));
            }
        }
    }
}

/// Unrolling a loop whose body holds connections only appends, for each
/// value of the index from `i` up to `bound`, `bound` not included, and in
/// ascending order of that value, one connection for each command of the
/// body, in the order of the body: what that command comes to with the
/// index bound to that value. So the stream gets longer by the length of
/// the body times the number of index values.
pub proof fn law_unrolled_connections(
    prog: Seq<Component>,
    c: usize,
    ul: Component,
    st: State,
    lp: Loop,
    i: u64,
    bound: u64,
)
    requires
        all_connects(lp.body@),
        i <= bound,
        unroll(prog, c, ul, st, lp, i, bound) is Ok,
        unroll(prog, c, ul, st, lp, i, bound)->Ok_0.sig.base.fits(),
    ensures
        ({
            let st1 = unroll(prog, c, ul, st, lp, i, bound)->Ok_0;
            let len = st.sig.base.cmds.len() as int;
            let n = lp.body@.len() as int;
            &&& st1.pass == st.pass
            &&& body_grows(st.sig, st1.sig)
            &&& st1.sig.base.cmds.len() == len + (bound - i) * n
            &&& forall|it: int, k: int|
                0 <= it < bound - i && 0 <= k < n ==> emitted(
                    ul,
                    st1.sig,
                    st.sig.binding.push((lp.index, (i + it) as u64)),
                    lp.body@[k],
                    st1.sig.base.cmds[#[trigger] place(len, n, it, k)],
                )
        }),
    decreases bound - i,
{
    let len = st.sig.base.cmds.len() as int;
    let n = lp.body@.len() as int;
    if i < bound {
        let inner = st.bind(lp.index, i);
        let a = commands(prog, c, ul, inner, lp.body@, 0)->Ok_0;
        let next = a.unbind();
        law_unrolled_connections(prog, c, ul, next, lp, (i + 1) as u64, bound);
        let st1 = unroll(prog, c, ul, next, lp, (i + 1) as u64, bound)->Ok_0;
        assert(a.sig.base.fits());
        law_connections_in_order(prog, c, ul, inner, lp.body@, 0);
        assert(st.sig.binding.push((lp.index, i)).drop_last() =~= st.sig.binding);
        assert(next.sig.binding == st.sig.binding);
        assert(body_grows(st.sig, st1.sig));
        assert(len + n + (bound - (i + 1)) * n == len + (bound - i) * n) by (nonlinear_arith);
        assert forall|it: int, k: int| 0 <= it < bound - i && 0 <= k < n implies emitted(
            ul,
            st1.sig,
            st.sig.binding.push((lp.index, (i + it) as u64)),
            lp.body@[k],
            st1.sig.base.cmds[#[trigger] place(len, n, it, k)],
        ) by {
            if it == 0 {
                assert(place(len, n, it, k) == len + k - 0) by (nonlinear_arith)
                    requires
                        it == 0,
                        place(len, n, it, k) == len + it * n + k,
                ;
                assert(emitted(ul, a.sig, inner.sig.binding, lp.body@[k], a.sig.base.cmds[len + k - 0]));
                assert(st1.sig.base.cmds[len + k] == a.sig.base.cmds[len + k]);
                lemma_emitted_stays(
                    ul,
                    next.sig,
                    st1.sig,
                    inner.sig.binding,
                    lp.body@[k],
                    a.sig.base.cmds[len + k],
                );
            } else {
                assert(place(len, n, it, k) == place(len + n, n, it - 1, k)) by (nonlinear_arith)
                    requires
                        place(len, n, it, k) == len + it * n + k,
                        place(len + n, n, it - 1, k) == len + n + (it - 1) * n + k,
                ;
                assert(next.sig.base.cmds.len() == len + n);
                assert(i + 1 + (it - 1) == i + it);
            }
        }
    } else {
        assert((bound - i) * n == 0) by (nonlinear_arith)
            requires
                bound - i == 0,
        ;
    }
}

/// A loop whose body holds connections only comes to this: its start and
/// its end have values under the binding, and the command stream gets one
/// connection for each value of the index from start to end, end not
/// included, and each command of the body, in that order: what that
/// command comes to with the index bound to that value. Where the end is
/// not after the start, nothing is appended.
pub proof fn law_loop_of_connections(
    prog: Seq<Component>,
    c: usize,
    ul: Component,
    st: State,
    lp: Loop,
)
    requires
        all_connects(lp.body@),
        forloop(prog, c, ul, st, lp) is Ok,
        forloop(prog, c, ul, st, lp)->Ok_0.sig.base.fits(),
    ensures
        ({
            let st1 = forloop(prog, c, ul, st, lp)->Ok_0;
            let len = st.sig.base.cmds.len() as int;
            let n = lp.body@.len() as int;
            &&& value(ul, st.sig.binding, lp.start) is Some
            &&& value(ul, st.sig.binding, lp.end) is Some
            &&& ({
                let start = value(ul, st.sig.binding, lp.start)->Some_0;
                let end = value(ul, st.sig.binding, lp.end)->Some_0;
                let count = if end > start {
                    end - start
                } else {
                    0
                };
                &&& st1.pass == st.pass
                &&& body_grows(st.sig, st1.sig)
                &&& st1.sig.base.cmds.len() == len + count * n
                &&& forall|it: int, k: int|
                    0 <= it < count && 0 <= k < n ==> emitted(
                        ul,
                        st1.sig,
                        st.sig.binding.push((lp.index, (start + it) as u64)),
                        lp.body@[k],
                        st1.sig.base.cmds[#[trigger] place(len, n, it, k)],
                    )
            })
        }),
{
    let n = lp.body@.len() as int;
    let (s1, a) = st.sig.expr(ul, lp.start)->Ok_0;
    let (s2, b) = s1.expr(ul, lp.end)->Ok_0;
    let start = s2.base.concrete(a)->Some_0;
    let end = s2.base.concrete(b)->Some_0;
    let st1 = forloop(prog, c, ul, st, lp)->Ok_0;
    lemma_expr(st.sig, ul, lp.start);
    lemma_expr(s1, ul, lp.end);
    if start <= end {
        law_unrolled_connections(prog, c, ul, st.with_sig(s2), lp, start, end);
    } else {
        assert(0 * n == 0) by (nonlinear_arith);
    }
    assert(s2.base.fits());
    assert(s1.base.fits());
    assert(s2.base.exprs[a as int] == s1.base.exprs[a as int]);
}

} // verus!
