//! The route table: descriptors in registration order, with no two of the
//! same method and shape, composed by merging and nesting.

use vstd::prelude::*;
use crate::error::RegistrationError;
use crate::route::{RouteDescriptor, RouteView};
use crate::template::{
    equivalent, literals_of, prefixed, template_of, PathTemplate, Segment, SegmentView,
};
use crate::text::{copy_range, views};

verus! {

/// Whether two routes cannot stand in one table: the same method and
/// templates of the same shape.
pub open spec fn conflicts(a: RouteView, b: RouteView) -> bool {
    a.method == b.method && equivalent(a.template, b.template)
}

/// Whether some route of the table conflicts with `r`.
pub open spec fn conflicts_with_any(table: Seq<RouteView>, r: RouteView) -> bool {
    exists|i: int| 0 <= i < table.len() && conflicts(#[trigger] table[i], r)
}

/// Whether no two routes of the table conflict.
pub open spec fn conflict_free(table: Seq<RouteView>) -> bool {
    forall|i: int, j: int| 0 <= i < j < table.len() ==> !conflicts(table[i], table[j])
}

/// Whether the table is conflict-free and each of its routes well formed.
pub open spec fn table_wf(table: Seq<RouteView>) -> bool {
    &&& conflict_free(table)
    &&& forall|i: int| 0 <= i < table.len() ==> (#[trigger] table[i]).wf()
}

/// The routes of a table, each under the prefix.
pub open spec fn nested_routes(table: Seq<RouteView>, prefix: Seq<Seq<u8>>) -> Seq<RouteView> {
    table.map_values(|r: RouteView| r.nested(prefix))
}

/// The literal segments that a prefix text denotes: it must parse as a
/// template, and hold no parameter.
pub open spec fn prefix_of(text: Seq<u8>) -> Option<Seq<Seq<u8>>> {
    match template_of(text) {
        None => None,
        Some(t) => if forall|i: int| 0 <= i < t.len() ==> (#[trigger] t[i]).is_literal() {
            Some(t.map_values(|s: SegmentView| s.text()))
        } else {
            None
        },
    }
}

/// The values of a run of routes.
pub open spec fn route_views(v: Seq<RouteDescriptor>) -> Seq<RouteView> {
    v.map_values(|r: RouteDescriptor| r@)
}

/// Two templates under one prefix have the same shape exactly when they have
/// it without the prefix.
pub proof fn lemma_equivalent_prefixed(
    prefix: Seq<Seq<u8>>,
    a: Seq<SegmentView>,
    b: Seq<SegmentView>,
)
    ensures
        equivalent(prefixed(prefix, a), prefixed(prefix, b)) == equivalent(a, b),
{
    let pa = prefixed(prefix, a);
    let pb = prefixed(prefix, b);
    let n = prefix.len() as int;
    assert(pa.len() == n + a.len());
    assert(pb.len() == n + b.len());
    if equivalent(pa, pb) {
        assert forall|i: int| 0 <= i < a.len() implies (#[trigger] a[i]).same_shape(b[i]) by {
            assert(pa[n + i] == a[i]);
            assert(pb[n + i] == b[i]);
            assert(pa[n + i].same_shape(pb[n + i]));
        }
    }
    if equivalent(a, b) {
        assert forall|i: int| 0 <= i < pa.len() implies (#[trigger] pa[i]).same_shape(pb[i]) by {
            if i < n {
                assert(pa[i] == literals_of(prefix)[i]);
                assert(pb[i] == literals_of(prefix)[i]);
            } else {
                assert(pa[i] == a[i - n]);
                assert(pb[i] == b[i - n]);
                assert(a[i - n].same_shape(b[i - n]));
            }
        }
    }
}

/// A table of routes.
#[derive(Debug, PartialEq, Eq)]
pub struct RouteTable {
    routes: Vec<RouteDescriptor>,
}

impl View for RouteTable {
    type V = Seq<RouteView>;

    closed spec fn view(&self) -> Seq<RouteView> {
        route_views(self.routes@)
    }
}

/// Whether the two routes conflict.
fn clash(a: &RouteDescriptor, b: &RouteDescriptor) -> (yes: bool)
    ensures
        yes == conflicts(a@, b@),
{
    a.method() == b.method() && a.template().equivalent_to(b.template())
}

/// Reads a prefix text as literal segments.
fn parse_prefix(text: &[u8]) -> (out: Option<Vec<Vec<u8>>>)
    ensures
        match prefix_of(text@) {
            Some(p) => out is Some && views(out->Some_0@) == p,
            None => out is None,
        },
{
    let template = match PathTemplate::parse(text) {
        Ok(t) => t,
        Err(_) => {
            return None;
        },
    };
    let mut out: Vec<Vec<u8>> = Vec::new();
    let mut i: usize = 0;
    let ghost texts = template@.map_values(|s: SegmentView| s.text());
    assert(views(out@) =~= texts.subrange(0, 0));
    while i < template.len()
        invariant
            0 <= i <= template@.len(),
            template_of(text@) == Some(template@),
            texts == template@.map_values(|s: SegmentView| s.text()),
            forall|k: int| 0 <= k < i ==> (#[trigger] template@[k]).is_literal(),
            views(out@) == texts.subrange(0, i as int),
        decreases template@.len() - i,
    {
        match template.segment(i) {
            Segment::Literal(t) => {
                let ghost before = views(out@);
                let copy = copy_range(t.as_slice(), 0, t.len());
                assert(copy@ =~= t@);
                out.push(copy);
                assert(views(out@) =~= before.push(copy@));
                assert(texts.subrange(0, i + 1) =~= before.push(copy@));
            },
            Segment::Param(_) => {
                assert(!template@[i as int].is_literal());
                return None;
            },
        }
        i += 1;
    }
    assert(texts.subrange(0, i as int) =~= texts);
    Some(out)
}

impl RouteTable {
    /// Whether the table is well formed.
    pub open spec fn wf(&self) -> bool {
        table_wf(self@)
    }

    /// An empty table.
    pub fn new() -> (t: RouteTable)
        ensures
            t.wf(),
            t@ == Seq::<RouteView>::empty(),
    {
        let t = RouteTable { routes: Vec::new() };
        assert(t@ =~= Seq::<RouteView>::empty());
        t
    }

    /// The number of routes.
    pub fn len(&self) -> (n: usize)
        ensures
            n == self@.len(),
    {
        self.routes.len()
    }

    /// The route at place `i`, in registration order.
    pub fn get(&self, i: usize) -> (r: &RouteDescriptor)
        requires
            i < self@.len(),
        ensures
            r@ == self@[i as int],
    {
        &self.routes[i]
    }

    /// Whether some route of the table conflicts with `r`.
    fn clashes_with(&self, r: &RouteDescriptor) -> (yes: bool)
        ensures
            yes == conflicts_with_any(self@, r@),
    {
        let mut i: usize = 0;
        while i < self.routes.len()
            invariant
                0 <= i <= self.routes.len(),
                forall|k: int| 0 <= k < i ==> !conflicts(#[trigger] self@[k], r@),
            decreases self.routes.len() - i,
        {
            if clash(&self.routes[i], r) {
                assert(conflicts(self@[i as int], r@));
                return true;
            }
            i += 1;
        }
        false
    }

    /// Appends a route. Fails with `RouteConflict` if the table holds a
    /// route of the same method and shape; the table is then unchanged.
    pub fn route(&mut self, descriptor: RouteDescriptor) -> (r: Result<(), RegistrationError>)
        requires
            old(self).wf(),
            descriptor.wf(),
        ensures
            final(self).wf(),
            match r {
                Ok(_) => !conflicts_with_any(old(self)@, descriptor@) && final(self)@ == old(self)@.push(descriptor@),
                Err(e) => e == RegistrationError::RouteConflict && conflicts_with_any(
                    old(self)@,
                    descriptor@,
                ) && final(self)@ == old(self)@,
            },
    {
        if self.clashes_with(&descriptor) {
            return Err(RegistrationError::RouteConflict);
        }
        let ghost before = self@;
        self.routes.push(descriptor);
        assert(self@ =~= before.push(descriptor@));
        Ok(())
    }

    /// Takes in copies of the routes of `other`, each under `prefix`.
    fn absorb(&mut self, prefix: &Vec<Vec<u8>>, other: &RouteTable) -> (r: Result<
        (),
        RegistrationError,
    >)
        requires
            old(self).wf(),
            other.wf(),
        ensures
            final(self).wf(),
            r is Ok <==> conflict_free(old(self)@ + nested_routes(other@, views(prefix@))),
            r is Ok ==> final(self)@ == old(self)@ + nested_routes(other@, views(prefix@)),
            r is Err ==> r->Err_0 == RegistrationError::RouteConflict && final(self)@ == old(self)@,
    {
        let ghost base = self@;
        let ghost p = views(prefix@);
        let ghost wanted = nested_routes(other@, p);
        let mut incoming: Vec<RouteDescriptor> = Vec::new();
        let mut j: usize = 0;
        assert(route_views(incoming@) =~= wanted.subrange(0, 0));
        while j < other.routes.len()
            invariant
                0 <= j <= other.routes.len(),
                other.wf(),
                self@ == base,
                table_wf(base),
                incoming@.len() == j,
                p == views(prefix@),
                wanted == nested_routes(other@, p),
                route_views(incoming@) == wanted.subrange(0, j as int),
                forall|k: int| 0 <= k < j ==> (#[trigger] incoming@[k]).wf(),
                forall|i: int, k: int|
                    0 <= i < base.len() && 0 <= k < j ==> !conflicts(base[i], wanted[k]),
            decreases other.routes.len() - j,
        {
            assert(other.routes@[j as int]@ == other@[j as int]);
            assert(other@[j as int].wf());
            let copy = other.routes[j].nested(prefix);
            assert(copy@ == wanted[j as int]);
            if self.clashes_with(&copy) {
                proof {
                    let whole = base + wanted;
                    let i = choose|i: int| 0 <= i < base.len() && conflicts(#[trigger] base[i], copy@);
                    assert(whole[i] == base[i]);
                    assert(whole[base.len() + j] == wanted[j as int]);
                    assert(!conflict_free(whole));
                }
                return Err(RegistrationError::RouteConflict);
            }
            let ghost before = route_views(incoming@);
            incoming.push(copy);
            assert(route_views(incoming@) =~= before.push(copy@));
            j += 1;
            assert(wanted.subrange(0, j as int) =~= before.push(copy@));
        }
        assert(wanted.subrange(0, j as int) =~= wanted);
        proof {
            let whole = base + wanted;
            assert forall|a: int, b: int| 0 <= a < b < whole.len() implies !conflicts(
                whole[a],
                whole[b],
            ) by {
                if b < base.len() {
                } else if a < base.len() {
                    assert(whole[b] == wanted[b - base.len()]);
                } else {
                    let x = a - base.len();
                    let y = b - base.len();
                    assert(whole[a] == other@[x].nested(p));
                    assert(whole[b] == other@[y].nested(p));
                    lemma_equivalent_prefixed(p, other@[x].template, other@[y].template);
                    assert(!conflicts(other@[x], other@[y]));
                }
            }
            assert forall|a: int| 0 <= a < whole.len() implies (#[trigger] whole[a]).wf() by {
                if a >= base.len() {
                    assert(whole[a] == incoming@[a - base.len()]@);
                }
            }
        }
        self.routes.append(&mut incoming);
        assert(self@ =~= base + wanted);
        Ok(())
    }

    /// Takes in copies of the routes of `other`, in their order. Fails with
    /// `RouteConflict` if the two tables together hold a conflict; the table
    /// is then unchanged.
    pub fn merge(&mut self, other: &RouteTable) -> (r: Result<(), RegistrationError>)
        requires
            old(self).wf(),
            other.wf(),
        ensures
            final(self).wf(),
            r is Ok <==> conflict_free(old(self)@ + other@),
            r is Ok ==> final(self)@ == old(self)@ + other@,
            r is Err ==> r->Err_0 == RegistrationError::RouteConflict && final(self)@ == old(self)@,
    {
        let prefix: Vec<Vec<u8>> = Vec::new();
        proof {
            let p = views(prefix@);
            let lifted = nested_routes(other@, p);
            assert forall|i: int| 0 <= i < other@.len() implies lifted[i] == other@[i] by {
                assert(prefixed(p, other@[i].template) =~= other@[i].template);
            }
            assert(lifted =~= other@);
        }
        self.absorb(&prefix, other)
    }

    /// Takes in copies of the routes of `other`, each under the literal
    /// segments of `prefix`. Fails with `InvalidPathTemplate` if the prefix
    /// is malformed or holds a parameter, with `RouteConflict` if the table
    /// and the prefixed routes together hold a conflict; the table is then
    /// unchanged. `other` is not touched.
    pub fn nest(&mut self, prefix: &[u8], other: &RouteTable) -> (r: Result<
        (),
        RegistrationError,
    >)
        requires
            old(self).wf(),
            other.wf(),
        ensures
            final(self).wf(),
            match prefix_of(prefix@) {
                None => r == Err::<(), RegistrationError>(RegistrationError::InvalidPathTemplate)
                    && final(self)@ == old(self)@,
                Some(p) => if conflict_free(old(self)@ + nested_routes(other@, p)) {
                    r is Ok && final(self)@ == old(self)@ + nested_routes(other@, p)
                } else {
                    r == Err::<(), RegistrationError>(RegistrationError::RouteConflict) && final(self)@ == old(self)@
                },
            },
    {
        match parse_prefix(prefix) {
            None => Err(RegistrationError::InvalidPathTemplate),
            Some(p) => self.absorb(&p, other),
        }
    }
}

} // verus!
