//! The pass: the concrete components built so far, and the tables that make
//! every request for one key end at one concrete component.

use vstd::prelude::*;
use crate::base::{BaseComp, BaseView};
use crate::deferred::{bind_from, build, initial_binding, request, MonoDeferred};
use crate::fault::Fault;
use crate::invariants::lemma_request;
use crate::ir::{Context, UnderlyingComp};
use crate::maps::{find_first, Cache, CompKey, ForeignMap, KeyView, Table};
use crate::monosig::{Binding, MonoSig};

verus! {

/// The state of one run over a program.
pub struct Monomorphize<'a> {
    /// The generic components.
    pub old: &'a Context,
    /// The concrete components, in the order in which they were begun.
    pub ctx: Vec<BaseComp>,
    /// Where the concrete component of each finished request is stored.
    pub processed: Cache,
    /// For each event of a generic component and each key: the event of the
    /// concrete component.
    pub event_map: ForeignMap,
    /// For each signature port of a generic component and each key: the
    /// port of the concrete component.
    pub port_map: ForeignMap,
}

/// The mathematical value of the part of a [`Monomorphize`] that changes.
pub struct PassView {
    pub ctx: Seq<BaseView>,
    pub processed: Seq<(KeyView, usize)>,
    pub event_map: Seq<((KeyView, usize), usize)>,
    pub port_map: Seq<((KeyView, usize), usize)>,
}

impl PassView {
    /// The state before any request.
    pub open spec fn empty() -> PassView {
        PassView {
            ctx: Seq::empty(),
            processed: Seq::empty(),
            event_map: Seq::empty(),
            port_map: Seq::empty(),
        }
    }

    /// The state after room was made for one more concrete component.
    pub open spec fn reserve(self) -> PassView {
        PassView { ctx: self.ctx.push(BaseView::empty()), ..self }
    }

    /// The state after the finished component `base` was put in the room
    /// made for it at `b` and recorded under `key`.
    pub open spec fn finish(self, b: usize, base: BaseView, key: KeyView) -> PassView {
        PassView {
            ctx: if b < self.ctx.len() {
                self.ctx.update(b as int, base)
            } else {
                self.ctx
            },
            processed: self.processed.push((key, b)),
            ..self
        }
    }

    /// The state after the entity at `old_idx` of the component for `key`
    /// was registered as the event `new_idx`.
    pub open spec fn add_event(self, key: KeyView, old_idx: usize, new_idx: usize) -> PassView {
        PassView { event_map: self.event_map.push(((key, old_idx), new_idx)), ..self }
    }

    /// The state after the entity at `old_idx` of the component for `key`
    /// was registered as the port `new_idx`.
    pub open spec fn add_port(self, key: KeyView, old_idx: usize, new_idx: usize) -> PassView {
        PassView { port_map: self.port_map.push(((key, old_idx), new_idx)), ..self }
    }
}

impl<'a> View for Monomorphize<'a> {
    type V = PassView;

    open spec fn view(&self) -> PassView {
        PassView {
            ctx: self.ctx@.map_values(|c: BaseComp| c@),
            processed: self.processed@,
            event_map: self.event_map@,
            port_map: self.port_map@,
        }
    }
}

impl<'a> Monomorphize<'a> {
    /// A pass over `old` that has built nothing yet.
    pub fn new(old: &'a Context) -> (r: Self)
        ensures
            r.old == old,
            r@ == PassView::empty(),
            r@.wf(),
    {
        let r = Monomorphize {
            old,
            ctx: Vec::new(),
            processed: Cache::new(),
            event_map: ForeignMap::new(),
            port_map: ForeignMap::new(),
        };
        assert(r@.ctx =~= Seq::empty());
        r
    }

    /// The binding that a request for `ul` with the values `vals` starts
    /// from.
    #[verifier::loop_isolation(false)]
    fn initial_binding(ul: &UnderlyingComp, vals: &Vec<u64>) -> (r: Result<Binding, Fault>)
        ensures
            match initial_binding(*ul.comp, vals@) {
                Ok(b) => r is Ok && r->Ok_0@ == b,
                Err(f) => r is Err && r->Err_0 == f,
            },
    {
        let mut binding: Binding = Table::new();
        if ul.is_ext() {
            if vals.len() == 0 {
                return Ok(binding);
            } else {
                return Err(Fault::Missing);
            }
        }
        let params = ul.params();
        let mut k: usize = 0;
        let mut used: usize = 0;
        while k < params.len()
            invariant
                k <= params.len(),
                params@ == ul.comp.params@,
                used == binding@.len(),
                bind_from(params@, vals@, k as int, binding@) == bind_from(
                    params@,
                    vals@,
                    0,
                    Seq::empty(),
                ),
            decreases params.len() - k,
        {
            if params[k].is_sig_owned() {
                if used < vals.len() {
                    binding.insert(k, vals[used]);
                    used += 1;
                } else {
                    return Err(Fault::Missing);
                }
            }
            k += 1;
        }
        if used == vals.len() {
            Ok(binding)
        } else {
            Err(Fault::Missing)
        }
    }

    /// Builds the concrete component of the generic component stored at
    /// `comp` under the parameter values `params`, in room made for it in
    /// the pass, and returns it. The record of finished requests is not
    /// consulted for `comp`.
    fn build(&mut self, comp: usize, params: &Vec<u64>) -> (r: Result<BaseComp, Fault>)
        ensures
            match build(old(self).old.comps@, old(self)@, comp, params@) {
                Ok((p, base)) => r is Ok && r->Ok_0@ == base && final(self)@ == p,
                Err(f) => r is Err && r->Err_0 == f,
            },
            final(self).old == old(self).old,
        decreases comp, 3nat, old(self).old.comps@, 0nat, 0nat,
    {
        let old_ctx = self.old;
        if comp >= old_ctx.comps.len() {
            return Err(Fault::Missing);
        }
        let underlying = UnderlyingComp::new(&old_ctx.comps[comp]);
        let binding = Self::initial_binding(&underlying, params)?;
        self.ctx.push(BaseComp::new());
        assert(self@.ctx =~= old(self)@.ctx.push(BaseView::empty()));
        let mut monosig = MonoSig::new(comp, binding);
        MonoDeferred::sig(&mut monosig, underlying, self)?;
        let mut mono = MonoDeferred { underlying, monosig };
        mono.gen_comp(self)?;
        Ok(mono.monosig.base)
    }

    /// Answers a request for the concrete component of the generic
    /// component stored at `comp` under the parameter values `params`, and
    /// returns where the concrete component is stored. A request that was
    /// answered before is answered from the record and changes nothing.
    /// In a well-formed pass the answer names a stored component, is on
    /// record under the key of the request, and the pass stays well formed.
    pub fn get_or_create(&mut self, comp: usize, params: Vec<u64>) -> (r: Result<usize, Fault>)
        ensures
            match request(old(self).old.comps@, old(self)@, comp, params@) {
                Ok((p, b)) => r == Ok::<usize, Fault>(b) && final(self)@ == p,
                Err(f) => r == Err::<usize, Fault>(f),
            },
            final(self).old == old(self).old,
            old(self)@.wf() ==> (r matches Ok(b) ==> {
                &&& final(self)@.wf()
                &&& b < final(self).ctx.len()
                &&& find_first(final(self)@.processed, KeyView { comp, params: params@ }) == Some(b)
            }),
        decreases comp, 4nat, old(self).old.comps@, 0nat, 0nat,
    {
        proof {
            if request(self.old.comps@, self@, comp, params@) is Ok {
                lemma_request(self.old.comps@, self@, comp, params@);
            }
        }
        let key = CompKey::new(comp, params);
        if let Some(b) = self.processed.get(&key) {
            return Ok(b);
        }
        let b = self.ctx.len();
        let base = self.build(comp, &key.params)?;
        let ghost before = self@;
        if b < self.ctx.len() {
            self.ctx[b] = base;
            assert(self@.ctx =~= before.ctx.update(b as int, base@));
        }
        self.processed.insert(key, b);
        Ok(b)
    }
}

} // verus!
