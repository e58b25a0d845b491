//! Route descriptors: the method, the path template, the extraction plan and
//! the handler reference of one declared handler, built once at registration.

use vstd::prelude::*;
use vstd::string::StringSliceAdditionalSpecFns;
use crate::error::RegistrationError;
use crate::template::{
    literals_of, param_place, param_place_from, prefixed, template_of, PathTemplate, SegmentView,
};
use crate::text::{bytes_eq, copy_range, views};

verus! {

/// The request methods a route can be declared for.
#[derive(Clone, Copy, Debug, PartialEq, Eq, Structural)]
pub enum Method {
    Get,
    Post,
    Put,
    Delete,
    Patch,
}

/// The method that a request names: the methods are written in upper case,
/// and no other name is a method a route can be declared for.
pub open spec fn method_named(name: Seq<u8>) -> Option<Method> {
    if name == "GET".spec_bytes() {
        Some(Method::Get)
    } else if name == "POST".spec_bytes() {
        Some(Method::Post)
    } else if name == "PUT".spec_bytes() {
        Some(Method::Put)
    } else if name == "DELETE".spec_bytes() {
        Some(Method::Delete)
    } else if name == "PATCH".spec_bytes() {
        Some(Method::Patch)
    } else {
        None
    }
}

impl Method {
    /// The method that a request names.
    pub fn from_name(name: &[u8]) -> (method: Option<Method>)
        ensures
            method == method_named(name@),
    {
        if bytes_eq(name, "GET".as_bytes()) {
            Some(Method::Get)
        } else if bytes_eq(name, "POST".as_bytes()) {
            Some(Method::Post)
        } else if bytes_eq(name, "PUT".as_bytes()) {
            Some(Method::Put)
        } else if bytes_eq(name, "DELETE".as_bytes()) {
            Some(Method::Delete)
        } else if bytes_eq(name, "PATCH".as_bytes()) {
            Some(Method::Patch)
        } else {
            None
        }
    }
}

/// The types a path or query parameter can be parsed into.
#[derive(Clone, Copy, Debug, PartialEq, Eq)]
pub enum ScalarType {
    /// A signed decimal integer of 64 bits.
    Integer,
    /// The text as it stands.
    Text,
}

/// Where a handler's parameter is declared to come from.
#[derive(Clone, Copy, Debug, PartialEq, Eq)]
pub enum Source {
    Path,
    Query,
    OptionalQuery,
    Body,
    Service,
}

/// The type a handler's parameter is declared with.
#[derive(Clone, Copy, Debug, PartialEq, Eq)]
pub enum DeclaredType {
    Integer,
    Text,
    /// A type of the application, by its type identity.
    Named(u64),
}

/// One parameter of a handler, as declared.
#[derive(Debug, PartialEq, Eq)]
pub struct Parameter {
    pub source: Source,
    pub name: Vec<u8>,
    pub declared: DeclaredType,
}

/// The mathematical value of a [`Parameter`].
pub struct ParameterView {
    pub source: Source,
    pub name: Seq<u8>,
    pub declared: DeclaredType,
}

impl View for Parameter {
    type V = ParameterView;

    open spec fn view(&self) -> ParameterView {
        ParameterView { source: self.source, name: self.name@, declared: self.declared }
    }
}

/// One step of an extraction plan.
#[derive(Debug, PartialEq, Eq)]
pub enum ExtractorSpec {
    /// The path segment bound to `name`, parsed into `target`.
    PathParam { name: Vec<u8>, target: ScalarType },
    /// The query parameter `name`, parsed into `target`.
    QueryParam { name: Vec<u8>, target: ScalarType, required: bool },
    /// The request body, decoded into the type `type_id`.
    Body { type_id: u64 },
    /// An instance of the service `type_id`, from the container.
    Injected { type_id: u64 },
}

/// The mathematical value of an [`ExtractorSpec`].
pub enum ExtractorView {
    PathParam { name: Seq<u8>, target: ScalarType },
    QueryParam { name: Seq<u8>, target: ScalarType, required: bool },
    Body { type_id: u64 },
    Injected { type_id: u64 },
}

impl View for ExtractorSpec {
    type V = ExtractorView;

    open spec fn view(&self) -> ExtractorView {
        match self {
            ExtractorSpec::PathParam { name, target } => ExtractorView::PathParam {
                name: name@,
                target: *target,
            },
            ExtractorSpec::QueryParam { name, target, required } => ExtractorView::QueryParam {
                name: name@,
                target: *target,
                required: *required,
            },
            ExtractorSpec::Body { type_id } => ExtractorView::Body { type_id: *type_id },
            ExtractorSpec::Injected { type_id } => ExtractorView::Injected { type_id: *type_id },
        }
    }
}

/// The values of a run of extractors.
pub open spec fn extractor_views(v: Seq<ExtractorSpec>) -> Seq<ExtractorView> {
    v.map_values(|e: ExtractorSpec| e@)
}

/// The values of a run of declared parameters.
pub open spec fn parameter_views(v: Seq<Parameter>) -> Seq<ParameterView> {
    v.map_values(|p: Parameter| p@)
}

/// The scalar type a declared type stands for, if it is one.
pub open spec fn scalar_of(declared: DeclaredType) -> Option<ScalarType> {
    match declared {
        DeclaredType::Integer => Some(ScalarType::Integer),
        DeclaredType::Text => Some(ScalarType::Text),
        DeclaredType::Named(_) => None,
    }
}

/// Whether a plan holds a body extractor.
pub open spec fn has_body(plan: Seq<ExtractorView>) -> bool {
    exists|i: int| 0 <= i < plan.len() && plan[i] is Body
}

/// The type identity that the first body extractor of a plan, at or after
/// `from`, decodes into.
pub open spec fn body_type_from(plan: Seq<ExtractorView>, from: int) -> Option<u64>
    decreases plan.len() - from,
{
    if from < 0 || from >= plan.len() {
        None
    } else {
        match plan[from] {
            ExtractorView::Body { type_id } => Some(type_id),
            _ => body_type_from(plan, from + 1),
        }
    }
}

/// The extractor for one declared parameter, after the extractors `before`.
///
/// A path or query parameter needs a scalar type, and a path parameter a
/// template parameter of its name. A body or a service needs a named type,
/// and a handler takes one body at most. Everything else is unsupported.
pub open spec fn extractor_for(
    template: Seq<SegmentView>,
    before: Seq<ExtractorView>,
    p: ParameterView,
) -> Option<ExtractorView> {
    match p.source {
        Source::Path => match scalar_of(p.declared) {
            Some(target) => if param_place(template, p.name) is Some {
                Some(ExtractorView::PathParam { name: p.name, target })
            } else {
                None
            },
            None => None,
        },
        Source::Query => match scalar_of(p.declared) {
            Some(target) => Some(ExtractorView::QueryParam { name: p.name, target, required: true }),
            None => None,
        },
        Source::OptionalQuery => match scalar_of(p.declared) {
            Some(target) => Some(
                ExtractorView::QueryParam { name: p.name, target, required: false },
            ),
            None => None,
        },
        Source::Body => match p.declared {
            DeclaredType::Named(type_id) => if has_body(before) {
                None
            } else {
                Some(ExtractorView::Body { type_id })
            },
            _ => None,
        },
        Source::Service => match p.declared {
            DeclaredType::Named(type_id) => Some(ExtractorView::Injected { type_id }),
            _ => None,
        },
    }
}

/// The plan for the parameters from place `k` on, with the extractors
/// `before` for those in front. The first unsupported parameter fails, with
/// its place.
pub open spec fn plan_from(
    template: Seq<SegmentView>,
    params: Seq<ParameterView>,
    k: int,
    before: Seq<ExtractorView>,
) -> Result<Seq<ExtractorView>, RegistrationError>
    decreases params.len() - k,
{
    if k < 0 || k >= params.len() {
        Ok(before)
    } else {
        match extractor_for(template, before, params[k]) {
            None => Err(RegistrationError::UnsupportedExtractor(k as usize)),
            Some(e) => plan_from(template, params, k + 1, before.push(e)),
        }
    }
}

/// The mathematical value of a [`RouteDescriptor`].
pub struct RouteView {
    pub method: Method,
    pub template: Seq<SegmentView>,
    pub plan: Seq<ExtractorView>,
    pub handler: u64,
}

impl RouteView {
    /// Every path parameter of the plan is bound by the template.
    pub open spec fn wf(self) -> bool {
        forall|i: int|
            0 <= i < self.plan.len() ==> match #[trigger] self.plan[i] {
                ExtractorView::PathParam { name, target } => param_place(self.template, name)
                    is Some,
                _ => true,
            }
    }

    /// The route under a prefix of literal segments.
    pub open spec fn nested(self, prefix: Seq<Seq<u8>>) -> RouteView {
        RouteView {
            method: self.method,
            template: prefixed(prefix, self.template),
            plan: self.plan,
            handler: self.handler,
        }
    }
}

/// The route that a declaration denotes: the template must parse, and every
/// declared parameter must map to an extractor.
pub open spec fn route_of(
    method: Method,
    text: Seq<u8>,
    params: Seq<ParameterView>,
    handler: u64,
) -> Result<RouteView, RegistrationError> {
    match template_of(text) {
        None => Err(RegistrationError::InvalidPathTemplate),
        Some(template) => match plan_from(template, params, 0, Seq::empty()) {
            Err(e) => Err(e),
            Ok(plan) => Ok(RouteView { method, template, plan, handler }),
        },
    }
}

/// A parameter that a template binds is still bound under a literal prefix,
/// further along by the length of the prefix.
pub proof fn lemma_param_place_prefixed(
    prefix: Seq<Seq<u8>>,
    t: Seq<SegmentView>,
    name: Seq<u8>,
    from: int,
)
    requires
        0 <= from <= prefix.len() + t.len(),
    ensures
        param_place_from(t, name, if from < prefix.len() {
            0
        } else {
            from - prefix.len()
        }) is Some ==> param_place_from(prefixed(prefix, t), name, from) is Some,
    decreases prefix.len() + t.len() - from,
{
    let whole = prefixed(prefix, t);
    assert(whole.len() == prefix.len() + t.len());
    if from < prefix.len() {
        assert(whole[from] == literals_of(prefix)[from]);
        assert(whole[from].is_literal());
        lemma_param_place_prefixed(prefix, t, name, from + 1);
    } else if from < whole.len() {
        assert(whole[from] == t[from - prefix.len()]);
        lemma_param_place_prefixed(prefix, t, name, from + 1);
    }
}

impl ExtractorSpec {
    /// A copy of the extractor.
    pub fn duplicate(&self) -> (out: ExtractorSpec)
        ensures
            out@ == self@,
    {
        match self {
            ExtractorSpec::PathParam { name, target } => {
                let copy = copy_range(name.as_slice(), 0, name.len());
                assert(copy@ =~= name@);
                ExtractorSpec::PathParam { name: copy, target: *target }
            },
            ExtractorSpec::QueryParam { name, target, required } => {
                let copy = copy_range(name.as_slice(), 0, name.len());
                assert(copy@ =~= name@);
                ExtractorSpec::QueryParam { name: copy, target: *target, required: *required }
            },
            ExtractorSpec::Body { type_id } => ExtractorSpec::Body { type_id: *type_id },
            ExtractorSpec::Injected { type_id } => ExtractorSpec::Injected { type_id: *type_id },
        }
    }
}

/// One declared handler: immutable once created.
#[derive(Debug, PartialEq, Eq)]
pub struct RouteDescriptor {
    method: Method,
    template: PathTemplate,
    plan: Vec<ExtractorSpec>,
    handler: u64,
}

impl View for RouteDescriptor {
    type V = RouteView;

    closed spec fn view(&self) -> RouteView {
        RouteView {
            method: self.method,
            template: self.template@,
            plan: extractor_views(self.plan@),
            handler: self.handler,
        }
    }
}

/// Reads one declared parameter as an extractor.
fn extractor_of(template: &PathTemplate, body_seen: bool, p: &Parameter) -> (out: Option<
    ExtractorSpec,
>)
    ensures
        forall|before: Seq<ExtractorView>|
            has_body(before) == body_seen ==> match #[trigger] extractor_for(
                template@,
                before,
                p@,
            ) {
                Some(e) => out is Some && out->Some_0@ == e,
                None => out is None,
            },
{
    let scalar = match p.declared {
        DeclaredType::Integer => Some(ScalarType::Integer),
        DeclaredType::Text => Some(ScalarType::Text),
        DeclaredType::Named(_) => None,
    };
    match p.source {
        Source::Path => match scalar {
            Some(target) => {
                if template.param_position(p.name.as_slice()).is_some() {
                    let name = copy_range(p.name.as_slice(), 0, p.name.len());
                    assert(name@ =~= p.name@);
                    Some(ExtractorSpec::PathParam { name, target })
                } else {
                    None
                }
            },
            None => None,
        },
        Source::Query => match scalar {
            Some(target) => {
                let name = copy_range(p.name.as_slice(), 0, p.name.len());
                assert(name@ =~= p.name@);
                Some(ExtractorSpec::QueryParam { name, target, required: true })
            },
            None => None,
        },
        Source::OptionalQuery => match scalar {
            Some(target) => {
                let name = copy_range(p.name.as_slice(), 0, p.name.len());
                assert(name@ =~= p.name@);
                Some(ExtractorSpec::QueryParam { name, target, required: false })
            },
            None => None,
        },
        Source::Body => match p.declared {
            DeclaredType::Named(type_id) => if body_seen {
                None
            } else {
                Some(ExtractorSpec::Body { type_id })
            },
            _ => None,
        },
        Source::Service => match p.declared {
            DeclaredType::Named(type_id) => Some(ExtractorSpec::Injected { type_id }),
            _ => None,
        },
    }
}

impl RouteDescriptor {
    /// Whether the descriptor is well formed.
    pub open spec fn wf(&self) -> bool {
        self@.wf()
    }

    /// Builds the descriptor of a handler declared for `method` and the
    /// template `text`, with the parameters `params` in declared order.
    pub fn new(method: Method, text: &[u8], params: &[Parameter], handler: u64) -> (out: Result<
        RouteDescriptor,
        RegistrationError,
    >)
        ensures
            match route_of(method, text@, parameter_views(params@), handler) {
                Ok(route) => out is Ok && out->Ok_0@ == route && out->Ok_0.wf(),
                Err(e) => out is Err && out->Err_0 == e,
            },
    {
        let template = match PathTemplate::parse(text) {
            Ok(t) => t,
            Err(e) => {
                return Err(e);
            },
        };
        let ghost declared = parameter_views(params@);
        let mut plan: Vec<ExtractorSpec> = Vec::new();
        let mut body_seen = false;
        let mut k: usize = 0;
        assert(extractor_views(plan@) =~= Seq::empty());
        while k < params.len()
            invariant
                0 <= k <= params.len(),
                declared == parameter_views(params@),
                template_of(text@) == Some(template@),
                body_seen == has_body(extractor_views(plan@)),
                plan_from(template@, declared, 0, Seq::empty()) == plan_from(
                    template@,
                    declared,
                    k as int,
                    extractor_views(plan@),
                ),
                forall|i: int|
                    0 <= i < plan@.len() ==> match #[trigger] extractor_views(plan@)[i] {
                        ExtractorView::PathParam { name, target } => param_place(template@, name)
                            is Some,
                        _ => true,
                    },
            decreases params.len() - k,
        {
            let ghost before = extractor_views(plan@);
            assert(declared[k as int] == params@[k as int]@);
            let e = match extractor_of(&template, body_seen, &params[k]) {
                Some(e) => e,
                None => {
                    assert(extractor_for(template@, before, declared[k as int]) is None);
                    return Err(RegistrationError::UnsupportedExtractor(k));
                },
            };
            assert(extractor_for(template@, before, declared[k as int]) == Some(e@));
            if let ExtractorSpec::Body { type_id } = &e {
                body_seen = true;
            }
            plan.push(e);
            let ghost now = extractor_views(plan@);
            assert(now =~= before.push(e@));
            proof {
                if has_body(now) {
                    let i = choose|i: int| 0 <= i < now.len() && now[i] is Body;
                    if i < before.len() {
                        assert(before[i] is Body);
                    }
                } else {
                    if has_body(before) {
                        let i = choose|i: int| 0 <= i < before.len() && before[i] is Body;
                        assert(now[i] is Body);
                    }
                    assert(now[before.len() as int] == e@);
                }
            }
            k += 1;
        }
        let out = RouteDescriptor { method, template, plan, handler };
        Ok(out)
    }

    /// The method the route is declared for.
    pub fn method(&self) -> (m: Method)
        ensures
            m == self@.method,
    {
        self.method
    }

    /// The handler reference.
    pub fn handler(&self) -> (h: u64)
        ensures
            h == self@.handler,
    {
        self.handler
    }

    /// The path template.
    pub fn template(&self) -> (t: &PathTemplate)
        ensures
            t@ == self@.template,
    {
        &self.template
    }

    /// The extraction plan, in declared order.
    pub fn plan(&self) -> (p: &Vec<ExtractorSpec>)
        ensures
            extractor_views(p@) == self@.plan,
    {
        &self.plan
    }

    /// The type identity that the request body is decoded into, if the
    /// handler takes the body.
    pub fn body_type(&self) -> (t: Option<u64>)
        ensures
            t == body_type_from(self@.plan, 0),
    {
        let mut k: usize = 0;
        while k < self.plan.len()
            invariant
                0 <= k <= self.plan.len(),
                body_type_from(self@.plan, 0) == body_type_from(self@.plan, k as int),
            decreases self.plan.len() - k,
        {
            assert(self@.plan[k as int] == self.plan@[k as int]@);
            if let ExtractorSpec::Body { type_id } = &self.plan[k] {
                return Some(*type_id);
            }
            k += 1;
        }
        None
    }

    /// A copy of the route under a prefix of literal segments.
    pub fn nested(&self, prefix: &Vec<Vec<u8>>) -> (out: RouteDescriptor)
        requires
            self.wf(),
        ensures
            out@ == self@.nested(views(prefix@)),
            out.wf(),
    {
        let template = self.template.with_prefix(prefix);
        let mut plan: Vec<ExtractorSpec> = Vec::new();
        let mut k: usize = 0;
        assert(extractor_views(plan@) =~= self@.plan.subrange(0, 0));
        while k < self.plan.len()
            invariant
                0 <= k <= self.plan.len(),
                extractor_views(plan@) == self@.plan.subrange(0, k as int),
            decreases self.plan.len() - k,
        {
            let ghost before = extractor_views(plan@);
            let e = self.plan[k].duplicate();
            plan.push(e);
            assert(extractor_views(plan@) =~= before.push(e@));
            k += 1;
            assert(self@.plan.subrange(0, k as int) =~= before.push(e@));
        }
        assert(self@.plan.subrange(0, k as int) =~= self@.plan);
        let out = RouteDescriptor { method: self.method, template, plan, handler: self.handler };
        proof {
            assert forall|i: int| 0 <= i < out@.plan.len() implies match #[trigger] out@.plan[i] {
                ExtractorView::PathParam { name, target } => param_place(out@.template, name)
                    is Some,
                _ => true,
            } by {
                assert(out@.plan[i] == self@.plan[i]);
                match out@.plan[i] {
                    ExtractorView::PathParam { name, target } => {
                        lemma_param_place_prefixed(views(prefix@), self@.template, name, 0);
                    },
                    _ => {},
                }
            }
        }
        out
    }
}

} // verus!
