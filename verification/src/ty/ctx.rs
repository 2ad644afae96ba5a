//! Types given by an annotation, kept with the type scope they are read in.
use vstd::prelude::*;
use super::Ty;
use crate::analyzer::Analyzer;

verus! {

/// The identity of a type scope.
pub type TypeScopeId = u32;

/// The identity of a type annotation in the analyzed source.
pub type TypeNodeId = u64;

/// A type known outright, or an annotation to read in a type scope.
#[derive(Clone, Copy, Debug, PartialEq, Eq, Structural)]
pub enum CtxTy {
    Static(Ty),
    WithCtx(TypeScopeId, TypeNodeId),
}

impl Analyzer {
    /// The annotation `node`, read in the innermost type scope.
    pub fn ctx_ty_from_ts_type(&self, node: TypeNodeId) -> (r: CtxTy)
        requires
            self.type_scopes@.len() > 0,
        ensures
            r == CtxTy::WithCtx(self.type_scopes@.last(), node),
    {
        CtxTy::WithCtx(self.type_scopes[self.type_scopes.len() - 1], node)
    }

    /// The same type, an annotation now read in the innermost type scope.
    pub fn refresh_ctx_ty(&mut self, ty: CtxTy) -> (r: CtxTy)
        requires
            old(self).type_scopes@.len() > 0,
        ensures
            *final(self) == *old(self),
            r == match ty {
                CtxTy::Static(t) => CtxTy::Static(t),
                CtxTy::WithCtx(_, node) => CtxTy::WithCtx(old(self).type_scopes@.last(), node),
            },
    {
        match ty {
            CtxTy::Static(ty) => CtxTy::Static(ty),
            CtxTy::WithCtx(_, node) => self.ctx_ty_from_ts_type(node),
        }
    }

    /// Makes `scope` the innermost type scope, giving back the one it replaces.
    pub fn replace_top_type_scope(&mut self, scope: TypeScopeId) -> (old_top: TypeScopeId)
        requires
            old(self).type_scopes@.len() > 0,
        ensures
            old_top == old(self).type_scopes@.last(),
            final(self).type_scopes@ == old(self).type_scopes@.update(old(self).type_scopes@.len() - 1, scope),
            final(self).arena == old(self).arena,
            final(self).variable_scopes == old(self).variable_scopes,
            final(self).call_scopes == old(self).call_scopes,
            final(self).cf_scopes == old(self).cf_scopes,
            final(self).consumed == old(self).consumed,
    {
        let last = self.type_scopes.len() - 1;
        let old_top = self.type_scopes[last];
        self.type_scopes.set(last, scope);
        old_top
    }
}

/// What resolving a contextual type leaves to do: nothing, the type being
/// `Done`; or resolving the annotation `node` while the type scope it was
/// read in is the innermost, then putting `old_top` back.
#[derive(Clone, Copy, Debug, PartialEq, Eq, Structural)]
pub enum CtxResolveStep {
    Done(Ty),
    Resolve { node: TypeNodeId, old_top: TypeScopeId },
}

/// What reading an annotation leaves to do: nothing, the contextual type
/// being `Ready`; or, with no annotation but an inferred type, writing that
/// type out as an annotation and reading it in the innermost type scope.
#[derive(Clone, Copy, Debug, PartialEq, Eq, Structural)]
pub enum AnnotationStep {
    Ready(CtxTy),
    Serialize(Ty),
}

impl Analyzer {
    /// Starts resolving `ty`: a known type is done; for an annotation, the
    /// type scope it was read in becomes the innermost, and the step says
    /// which one `resolve_ctx_ty` puts back once the annotation is resolved.
    pub fn begin_resolve_ctx_ty(&mut self, ty: CtxTy) -> (r: CtxResolveStep)
        requires
            old(self).type_scopes@.len() > 0,
        ensures
            match ty {
                CtxTy::Static(t) => r == CtxResolveStep::Done(t) && *final(self) == *old(self),
                CtxTy::WithCtx(scope, node) => {
                    &&& r == CtxResolveStep::Resolve { node, old_top: old(self).type_scopes@.last() }
                    &&& final(self).type_scopes@ == old(self).type_scopes@.update(
                        old(self).type_scopes@.len() - 1,
                        scope,
                    )
                    &&& final(self).arena == old(self).arena
                    &&& final(self).variable_scopes == old(self).variable_scopes
                    &&& final(self).call_scopes == old(self).call_scopes
                    &&& final(self).cf_scopes == old(self).cf_scopes
                    &&& final(self).consumed == old(self).consumed
                },
            },
    {
        match ty {
            CtxTy::Static(t) => CtxResolveStep::Done(t),
            CtxTy::WithCtx(scope, node) => {
                let old_top = self.replace_top_type_scope(scope);
                CtxResolveStep::Resolve { node, old_top }
            },
        }
    }

    /// The type a contextual type resolves to, finishing what
    /// `begin_resolve_ctx_ty` started: a known type is itself and nothing
    /// changes; an annotation is `resolved`, the type it resolved to while
    /// its scope was the innermost, and the innermost type scope is put back.
    pub fn resolve_ctx_ty(&mut self, step: CtxResolveStep, resolved: Ty) -> (r: Ty)
        requires
            step is Resolve ==> old(self).type_scopes@.len() > 0,
        ensures
            match step {
                CtxResolveStep::Done(t) => r == t && *final(self) == *old(self),
                CtxResolveStep::Resolve { node, old_top } => {
                    &&& r == resolved
                    &&& final(self).type_scopes@ == old(self).type_scopes@.update(
                        old(self).type_scopes@.len() - 1,
                        old_top,
                    )
                    &&& final(self).arena == old(self).arena
                    &&& final(self).variable_scopes == old(self).variable_scopes
                    &&& final(self).call_scopes == old(self).call_scopes
                    &&& final(self).cf_scopes == old(self).cf_scopes
                    &&& final(self).consumed == old(self).consumed
                },
            },
    {
        match step {
            CtxResolveStep::Done(t) => t,
            CtxResolveStep::Resolve { node, old_top } => {
                self.replace_top_type_scope(old_top);
                resolved
            },
        }
    }

    /// The contextual type of a binding with the annotation `annotation`
    /// and the inferred type `inferred`: the annotation read in the
    /// innermost type scope; without one, the inferred type written out as
    /// an annotation; without either, `any`.
    pub fn ctx_ty_from_annotation(&self, annotation: Option<TypeNodeId>, inferred: Option<Ty>) -> (r: AnnotationStep)
        requires
            annotation is Some ==> self.type_scopes@.len() > 0,
        ensures
            r == match (annotation, inferred) {
                (Some(node), _) => AnnotationStep::Ready(CtxTy::WithCtx(self.type_scopes@.last(), node)),
                (None, Some(t)) => AnnotationStep::Serialize(t),
                (None, None) => AnnotationStep::Ready(CtxTy::Static(Ty::Any)),
            },
    {
        match (annotation, inferred) {
            (Some(node), _) => AnnotationStep::Ready(self.ctx_ty_from_ts_type(node)),
            (None, Some(t)) => AnnotationStep::Serialize(t),
            (None, None) => AnnotationStep::Ready(CtxTy::Static(Ty::Any)),
        }
    }
}

/// Resolving a contextual type leaves the analyzer's scopes as they were:
/// after `begin_resolve_ctx_ty` on `ty` and then `resolve_ctx_ty` on the step
/// it gave, the type scopes, and every other scope, are those before, and
/// the result is `ty` itself when it is known.
pub proof fn law_resolve_restores_type_scopes(
    a0: Analyzer,
    a1: Analyzer,
    a2: Analyzer,
    ty: CtxTy,
    step: CtxResolveStep,
    resolved: Ty,
    r: Ty,
)
    requires
        a0.type_scopes@.len() > 0,
        match ty {
            CtxTy::Static(t) => step == CtxResolveStep::Done(t) && a1 == a0,
            CtxTy::WithCtx(scope, node) => {
                &&& step == CtxResolveStep::Resolve { node, old_top: a0.type_scopes@.last() }
                &&& a1.type_scopes@ == a0.type_scopes@.update(a0.type_scopes@.len() - 1, scope)
                &&& a1.arena == a0.arena
                &&& a1.variable_scopes == a0.variable_scopes
                &&& a1.call_scopes == a0.call_scopes
                &&& a1.cf_scopes == a0.cf_scopes
                &&& a1.consumed == a0.consumed
            },
        },
        match step {
            CtxResolveStep::Done(t) => r == t && a2 == a1,
            CtxResolveStep::Resolve { node, old_top } => {
                &&& r == resolved
                &&& a2.type_scopes@ == a1.type_scopes@.update(a1.type_scopes@.len() - 1, old_top)
                &&& a2.arena == a1.arena
                &&& a2.variable_scopes == a1.variable_scopes
                &&& a2.call_scopes == a1.call_scopes
                &&& a2.cf_scopes == a1.cf_scopes
                &&& a2.consumed == a1.consumed
            },
        },
    ensures
        a2.type_scopes@ == a0.type_scopes@,
        a2.arena == a0.arena,
        a2.variable_scopes == a0.variable_scopes,
        a2.call_scopes == a0.call_scopes,
        a2.cf_scopes == a0.cf_scopes,
        a2.consumed == a0.consumed,
        ty matches CtxTy::Static(t) ==> r == t,
        ty is WithCtx ==> r == resolved,
{
    assert(a2.type_scopes@ =~= a0.type_scopes@);
}

} // verus!
