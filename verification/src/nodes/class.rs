//! Class declarations and expressions.
use vstd::prelude::*;
use crate::ty::interface::PropertyKeyType;
use crate::analyzer::Analyzer;

verus! {

/// The kind of a method definition.
#[derive(Clone, Copy, Debug, PartialEq, Eq, Structural)]
pub enum MethodKind {
    Constructor,
    Method,
    Getter,
    Setter,
}

/// How a property is defined on an object.
#[derive(Clone, Copy, Debug, PartialEq, Eq, Structural)]
pub enum PropertyKind {
    Init,
    Getter,
    Setter,
}

/// What a class element is.
#[derive(Clone, Copy, Debug, PartialEq, Eq, Structural)]
pub enum ClassElementKind {
    Method(MethodKind),
    Property { has_value: bool },
    StaticBlock,
    Accessor,
    IndexSignature,
}

/// A class element: its kind and whether it is static.
#[derive(Clone, Copy, Debug, PartialEq, Eq, Structural)]
pub struct ClassElementModel {
    pub kind: ClassElementKind,
    pub is_static: bool,
}

/// A class: whether it extends a class and has a name, and its elements in
/// source order. Steps name elements by their position.
pub struct ClassModel {
    pub has_super_class: bool,
    pub has_id: bool,
    pub elements: Vec<ClassElementModel>,
}

/// A step of running a class definition.
#[derive(Clone, Copy, Debug, PartialEq, Eq, Structural)]
pub enum ClassStep {
    /// Evaluate the class it extends.
    EvalSuperClass,
    /// Evaluate the key of this element.
    EvalKey(usize),
    PushVariableScope,
    /// Run this static method and define it on the class object.
    DefineStatic { element: usize, kind: PropertyKind },
    PopVariableScope,
    /// Create the class value from the keys, the scopes and the statics.
    CreateClass,
    /// Enter the class body as a call, `this` being the class.
    EnterBody,
    /// Declare the class's name in the body and bind it to the class.
    BindName,
    RunStaticBlock(usize),
    /// Evaluate this static property's initializer and set it on the class.
    SetStaticProperty(usize),
    LeaveBody,
    /// Bind the class's name, declared outside it, to the class.
    InitName,
}

/// A step of constructing an instance of a class.
#[derive(Clone, Copy, Debug, PartialEq, Eq, Structural)]
pub enum ConstructStep {
    /// The class it extends escapes to code the analysis cannot see.
    MutateSuperClass,
    /// The key of this element escapes.
    MutateKey(usize),
    /// Run this method; the function escapes.
    RunMethod(usize),
    /// Enter the constructor's body as a call, `this` and `arguments` unknown.
    EnterConstructor,
    /// Evaluate this property's initializer; the value escapes.
    InitProperty(usize),
    LeaveConstructor,
}

/// The steps that `f` gives for the first `n` elements, in order.
pub open spec fn steps_over<S>(els: Seq<ClassElementModel>, n: int, f: spec_fn(int, ClassElementModel) -> Seq<S>) -> Seq<S>
    decreases n,
{
    if n <= 0 {
        Seq::empty()
    } else {
        steps_over(els, n - 1, f) + f(n - 1, els[n - 1])
    }
}

/// Whether the element has a key: all but static blocks and index signatures.
pub open spec fn has_key(e: ClassElementModel) -> bool {
    !(e.kind is StaticBlock) && !(e.kind is IndexSignature)
}

pub open spec fn property_kind(m: MethodKind) -> PropertyKind {
    match m {
        MethodKind::Getter => PropertyKind::Getter,
        MethodKind::Setter => PropertyKind::Setter,
        _ => PropertyKind::Init,
    }
}

pub open spec fn key_step(i: int, e: ClassElementModel) -> Seq<ClassStep> {
    if has_key(e) {
        seq![ClassStep::EvalKey(i as usize)]
    } else {
        Seq::empty()
    }
}

pub open spec fn static_step(i: int, e: ClassElementModel) -> Seq<ClassStep> {
    match e.kind {
        ClassElementKind::Method(m) => if e.is_static {
            seq![ClassStep::DefineStatic { element: i as usize, kind: property_kind(m) }]
        } else {
            Seq::empty()
        },
        _ => Seq::empty(),
    }
}

pub open spec fn body_step(i: int, e: ClassElementModel) -> Seq<ClassStep> {
    match e.kind {
        ClassElementKind::StaticBlock => seq![ClassStep::RunStaticBlock(i as usize)],
        ClassElementKind::Property { has_value } => if e.is_static && has_value {
            seq![ClassStep::SetStaticProperty(i as usize)]
        } else {
            Seq::empty()
        },
        _ => Seq::empty(),
    }
}

/// Running a class definition is defined: no static method is a constructor.
pub open spec fn class_defined(els: Seq<ClassElementModel>) -> bool {
    forall|i: int| 0 <= i < els.len() ==> !((#[trigger] els[i]).is_static && els[i].kind == ClassElementKind::Method(
        MethodKind::Constructor,
    ))
}

/// The steps of running a class definition: the class it extends; each
/// element's key, in order; in a new variable scope, each static method
/// defined on the class object with its kind; the class created; then in
/// the class body, the name bound, each static block run and each static
/// property with an initializer set, in order.
pub open spec fn class_plan_spec(has_super_class: bool, has_id: bool, els: Seq<ClassElementModel>) -> Seq<ClassStep> {
    (if has_super_class { seq![ClassStep::EvalSuperClass] } else { Seq::empty() }) + steps_over(
        els,
        els.len() as int,
        |i: int, e: ClassElementModel| key_step(i, e),
    ) + seq![ClassStep::PushVariableScope] + steps_over(
        els,
        els.len() as int,
        |i: int, e: ClassElementModel| static_step(i, e),
    ) + seq![ClassStep::PopVariableScope, ClassStep::CreateClass, ClassStep::EnterBody] + (if has_id {
        seq![ClassStep::BindName]
    } else {
        Seq::empty()
    }) + steps_over(els, els.len() as int, |i: int, e: ClassElementModel| body_step(i, e)) + seq![
        ClassStep::LeaveBody,
    ]
}

pub open spec fn mutate_key_step(i: int, e: ClassElementModel, key: Option<PropertyKeyType>) -> Seq<ConstructStep> {
    if !e.is_static && key is Some {
        seq![ConstructStep::MutateKey(i as usize)]
    } else {
        Seq::empty()
    }
}

pub open spec fn method_step(i: int, e: ClassElementModel) -> Seq<ConstructStep> {
    if !e.is_static && e.kind is Method {
        seq![ConstructStep::RunMethod(i as usize)]
    } else {
        Seq::empty()
    }
}

pub open spec fn property_step(i: int, e: ClassElementModel) -> Seq<ConstructStep> {
    if !e.is_static && e.kind == (ClassElementKind::Property { has_value: true }) {
        seq![ConstructStep::InitProperty(i as usize)]
    } else {
        Seq::empty()
    }
}

/// The steps of constructing an instance: the class it extends escapes;
/// each instance element's key escapes, in order; each instance method is
/// run; then in the constructor's body each instance property with an
/// initializer is evaluated.
pub open spec fn construct_plan_spec(has_super_class: bool, els: Seq<ClassElementModel>, keys: Seq<
    Option<PropertyKeyType>,
>) -> Seq<ConstructStep> {
    (if has_super_class { seq![ConstructStep::MutateSuperClass] } else { Seq::empty() }) + steps_over(
        els,
        els.len() as int,
        |i: int, e: ClassElementModel| mutate_key_step(i, e, keys[i]),
    ) + steps_over(els, els.len() as int, |i: int, e: ClassElementModel| method_step(i, e)) + seq![
        ConstructStep::EnterConstructor,
    ] + steps_over(els, els.len() as int, |i: int, e: ClassElementModel| property_step(i, e)) + seq![
        ConstructStep::LeaveConstructor,
    ]
}

fn property_kind_of(m: MethodKind) -> (k: PropertyKind)
    ensures
        k == property_kind(m),
{
    match m {
        MethodKind::Getter => PropertyKind::Getter,
        MethodKind::Setter => PropertyKind::Setter,
        _ => PropertyKind::Init,
    }
}

impl Analyzer {
    /// The steps of running the class definition `c`.
    #[verifier::spinoff_prover]
    #[verifier::rlimit(40)]
    pub fn exec_class(&self, c: &ClassModel) -> (s: Vec<ClassStep>)
        requires
            class_defined(c.elements@),
        ensures
            s@ == class_plan_spec(c.has_super_class, c.has_id, c.elements@),
    {
        let els = &c.elements;
        let n = els.len();
        let mut s: Vec<ClassStep> = Vec::new();
        if c.has_super_class {
            s.push(ClassStep::EvalSuperClass);
        }
        let ghost p0 = s@;
        let ghost fk = |i: int, e: ClassElementModel| key_step(i, e);
        let mut i: usize = 0;
        while i < n
            invariant
                0 <= i <= n,
                n == els@.len(),
                s@ == p0 + steps_over(els@, i as int, fk),
                fk == (|i: int, e: ClassElementModel| key_step(i, e)),
            decreases n - i,
        {
            let ghost before = s@;
            let e = els[i];
            match e.kind {
                ClassElementKind::StaticBlock | ClassElementKind::IndexSignature => {},
                _ => {
                    s.push(ClassStep::EvalKey(i));
                },
            }
            proof {
                assert(s@ =~= before + key_step(i as int, e));
                assert(steps_over(els@, i + 1, fk) == steps_over(els@, i as int, fk) + fk(i as int, els@[i as int]));
            }
            i += 1;
        }
        s.push(ClassStep::PushVariableScope);
        let ghost p1 = s@;
        let ghost fs = |i: int, e: ClassElementModel| static_step(i, e);
        let mut i: usize = 0;
        while i < n
            invariant
                0 <= i <= n,
                n == els@.len(),
                s@ == p1 + steps_over(els@, i as int, fs),
                fs == (|i: int, e: ClassElementModel| static_step(i, e)),
            decreases n - i,
        {
            let ghost before = s@;
            let e = els[i];
            match e.kind {
                ClassElementKind::Method(m) => {
                    if e.is_static {
                        s.push(ClassStep::DefineStatic { element: i, kind: property_kind_of(m) });
                    }
                },
                _ => {},
            }
            proof {
                assert(s@ =~= before + static_step(i as int, e));
                assert(steps_over(els@, i + 1, fs) == steps_over(els@, i as int, fs) + fs(i as int, els@[i as int]));
            }
            i += 1;
        }
        s.push(ClassStep::PopVariableScope);
        s.push(ClassStep::CreateClass);
        s.push(ClassStep::EnterBody);
        if c.has_id {
            s.push(ClassStep::BindName);
        }
        let ghost p2 = s@;
        let ghost fb = |i: int, e: ClassElementModel| body_step(i, e);
        let mut i: usize = 0;
        while i < n
            invariant
                0 <= i <= n,
                n == els@.len(),
                s@ == p2 + steps_over(els@, i as int, fb),
                fb == (|i: int, e: ClassElementModel| body_step(i, e)),
            decreases n - i,
        {
            let ghost before = s@;
            let e = els[i];
            match e.kind {
                ClassElementKind::StaticBlock => {
                    s.push(ClassStep::RunStaticBlock(i));
                },
                ClassElementKind::Property { has_value } => {
                    if e.is_static && has_value {
                        s.push(ClassStep::SetStaticProperty(i));
                    }
                },
                _ => {},
            }
            proof {
                assert(s@ =~= before + body_step(i as int, e));
                assert(steps_over(els@, i + 1, fb) == steps_over(els@, i as int, fb) + fb(i as int, els@[i as int]));
            }
            i += 1;
        }
        s.push(ClassStep::LeaveBody);
        proof {
            assert(s@ =~= class_plan_spec(c.has_super_class, c.has_id, c.elements@));
        }
        s
    }

    /// The steps of constructing an instance of the class `c`, whose elements'
    /// keys were evaluated to `keys` when the class was defined.
    #[verifier::spinoff_prover]
    #[verifier::rlimit(40)]
    pub fn construct_class(&self, c: &ClassModel, keys: &Vec<Option<PropertyKeyType>>) -> (s: Vec<ConstructStep>)
        requires
            keys@.len() == c.elements@.len(),
        ensures
            s@ == construct_plan_spec(c.has_super_class, c.elements@, keys@),
    {
        let els = &c.elements;
        let n = els.len();
        let mut s: Vec<ConstructStep> = Vec::new();
        if c.has_super_class {
            s.push(ConstructStep::MutateSuperClass);
        }
        let ghost p0 = s@;
        let ghost fk = |i: int, e: ClassElementModel| mutate_key_step(i, e, keys@[i]);
        let mut i: usize = 0;
        while i < n
            invariant
                0 <= i <= n,
                n == els@.len(),
                keys@.len() == n,
                s@ == p0 + steps_over(els@, i as int, fk),
                fk == (|i: int, e: ClassElementModel| mutate_key_step(i, e, keys@[i])),
            decreases n - i,
        {
            let ghost before = s@;
            let e = els[i];
            if !e.is_static && keys[i].is_some() {
                s.push(ConstructStep::MutateKey(i));
            }
            proof {
                assert(s@ =~= before + mutate_key_step(i as int, e, keys@[i as int]));
                assert(steps_over(els@, i + 1, fk) == steps_over(els@, i as int, fk) + fk(i as int, els@[i as int]));
            }
            i += 1;
        }
        let ghost p1 = s@;
        let ghost fm = |i: int, e: ClassElementModel| method_step(i, e);
        let mut i: usize = 0;
        while i < n
            invariant
                0 <= i <= n,
                n == els@.len(),
                s@ == p1 + steps_over(els@, i as int, fm),
                fm == (|i: int, e: ClassElementModel| method_step(i, e)),
            decreases n - i,
        {
            let ghost before = s@;
            let e = els[i];
            if !e.is_static {
                match e.kind {
                    ClassElementKind::Method(_) => {
                        s.push(ConstructStep::RunMethod(i));
                    },
                    _ => {},
                }
            }
            proof {
                assert(s@ =~= before + method_step(i as int, e));
                assert(steps_over(els@, i + 1, fm) == steps_over(els@, i as int, fm) + fm(i as int, els@[i as int]));
            }
            i += 1;
        }
        s.push(ConstructStep::EnterConstructor);
        let ghost p2 = s@;
        let ghost fp = |i: int, e: ClassElementModel| property_step(i, e);
        let mut i: usize = 0;
        while i < n
            invariant
                0 <= i <= n,
                n == els@.len(),
                s@ == p2 + steps_over(els@, i as int, fp),
                fp == (|i: int, e: ClassElementModel| property_step(i, e)),
            decreases n - i,
        {
            let ghost before = s@;
            let e = els[i];
            if !e.is_static {
                match e.kind {
                    ClassElementKind::Property { has_value: true } => {
                        s.push(ConstructStep::InitProperty(i));
                    },
                    _ => {},
                }
            }
            proof {
                assert(s@ =~= before + property_step(i as int, e));
                assert(steps_over(els@, i + 1, fp) == steps_over(els@, i as int, fp) + fp(i as int, els@[i as int]));
            }
            i += 1;
        }
        s.push(ConstructStep::LeaveConstructor);
        proof {
            assert(s@ =~= construct_plan_spec(c.has_super_class, c.elements@, keys@));
        }
        s
    }

    /// The steps of a class declaration: running its definition, then
    /// binding its name to the class.
    pub fn init_class(&self, c: &ClassModel) -> (s: Vec<ClassStep>)
        requires
            class_defined(c.elements@),
            c.has_id,
        ensures
            s@ == class_plan_spec(c.has_super_class, c.has_id, c.elements@).push(ClassStep::InitName),
    {
        let mut s = self.exec_class(c);
        s.push(ClassStep::InitName);
        s
    }
}

/// When only the `i`-th element's steps can hold `x`, the steps of the
/// first `n` elements hold `x` exactly when `i` is among them and its steps
/// hold `x`.
pub proof fn lemma_steps_over_only<S>(
    els: Seq<ClassElementModel>,
    n: int,
    f: spec_fn(int, ClassElementModel) -> Seq<S>,
    x: S,
    i: int,
)
    requires
        0 <= n <= els.len(),
        forall|j: int| 0 <= j < els.len() && #[trigger] f(j, els[j]).contains(x) ==> j == i,
    ensures
        steps_over(els, n, f).contains(x) <==> (0 <= i < n && f(i, els[i]).contains(x)),
    decreases n,
{
    broadcast use vstd::seq_lib::lemma_seq_concat_contains_all_elements;
    if n > 0 {
        lemma_steps_over_only(els, n - 1, f, x, i);
        assert(steps_over(els, n, f) == steps_over(els, n - 1, f) + f(n - 1, els[n - 1]));
    }
}

proof fn lemma_one<S>(a: S, b: S)
    ensures
        seq![a].contains(b) <==> a == b,
        !Seq::<S>::empty().contains(b),
{
    if seq![a].contains(b) {
        let k = choose|k: int| 0 <= k < 1 && seq![a][k] == b;
        assert(k == 0);
    }
    if a == b {
        assert(seq![a][0] == b);
    }
}

proof fn lemma_element_index(j: int, i: usize, len: int)
    requires
        0 <= j < len,
        len <= usize::MAX,
        j as usize == i,
    ensures
        j == i,
{
}

/// Running a class definition evaluates the key of exactly the elements
/// that have one (all but static blocks and index signatures), runs
/// exactly the static blocks, defines on the class object exactly the
/// static methods, each with its kind (a getter as a getter, a setter as a
/// setter, any other method as a plain property), and sets on it exactly
/// the static properties that have an initializer. It evaluates the class
/// it extends exactly when there is one, and binds the class's name in its
/// body exactly when it has one.
pub proof fn law_class_steps_name_the_right_elements(
    has_super_class: bool,
    has_id: bool,
    els: Seq<ClassElementModel>,
    i: usize,
    k: PropertyKind,
)
    requires
        els.len() <= usize::MAX,
    ensures
        class_plan_spec(has_super_class, has_id, els).contains(ClassStep::EvalKey(i)) <==> (i < els.len()
            && !(els[i as int].kind is StaticBlock) && !(els[i as int].kind is IndexSignature)),
        class_plan_spec(has_super_class, has_id, els).contains(ClassStep::RunStaticBlock(i)) <==> (i < els.len()
            && els[i as int].kind is StaticBlock),
        class_plan_spec(has_super_class, has_id, els).contains(ClassStep::SetStaticProperty(i)) <==> (i
            < els.len() && els[i as int].is_static && els[i as int].kind == ClassElementKind::Property {
            has_value: true,
        }),
        class_plan_spec(has_super_class, has_id, els).contains(ClassStep::DefineStatic { element: i, kind: k })
            <==> (i < els.len() && els[i as int].is_static && els[i as int].kind is Method && (k
            == PropertyKind::Getter <==> els[i as int].kind == ClassElementKind::Method(MethodKind::Getter)) && (k
            == PropertyKind::Setter <==> els[i as int].kind == ClassElementKind::Method(MethodKind::Setter))),
        class_plan_spec(has_super_class, has_id, els).contains(ClassStep::EvalSuperClass) <==> has_super_class,
        class_plan_spec(has_super_class, has_id, els).contains(ClassStep::BindName) <==> has_id,
{
    lemma_class_step(has_super_class, has_id, els, ClassStep::EvalKey(i), i);
    lemma_class_step(has_super_class, has_id, els, ClassStep::RunStaticBlock(i), i);
    lemma_class_step(has_super_class, has_id, els, ClassStep::SetStaticProperty(i), i);
    lemma_class_step(has_super_class, has_id, els, ClassStep::DefineStatic { element: i, kind: k }, i);
    lemma_class_step(has_super_class, has_id, els, ClassStep::EvalSuperClass, i);
    lemma_class_step(has_super_class, has_id, els, ClassStep::BindName, i);
    if i < els.len() {
        let e = els[i as int];
        lemma_one(ClassStep::EvalKey(i), ClassStep::EvalKey(i));
        lemma_one(ClassStep::RunStaticBlock(i), ClassStep::RunStaticBlock(i));
        lemma_one(ClassStep::SetStaticProperty(i), ClassStep::SetStaticProperty(i));
        lemma_one(ClassStep::RunStaticBlock(i), ClassStep::SetStaticProperty(i));
        lemma_one(ClassStep::SetStaticProperty(i), ClassStep::RunStaticBlock(i));
        match e.kind {
            ClassElementKind::Method(m) => {
                lemma_one(ClassStep::DefineStatic { element: i, kind: property_kind(m) }, ClassStep::DefineStatic { element: i, kind: k });
            },
            _ => {},
        }
    }
}

/// Where in a class's steps `x` may come from: the parts of the plan.
proof fn lemma_class_step(has_super_class: bool, has_id: bool, els: Seq<ClassElementModel>, x: ClassStep, i: usize)
    requires
        els.len() <= usize::MAX,
        x == ClassStep::EvalKey(i) || x == ClassStep::RunStaticBlock(i) || x == ClassStep::SetStaticProperty(i)
            || (x is DefineStatic && x->element == i) || x == ClassStep::EvalSuperClass || x == ClassStep::BindName,
    ensures
        class_plan_spec(has_super_class, has_id, els).contains(x) <==> {
            ||| (has_super_class && x == ClassStep::EvalSuperClass)
            ||| (has_id && x == ClassStep::BindName)
            ||| (i < els.len() && key_step(i as int, els[i as int]).contains(x))
            ||| (i < els.len() && static_step(i as int, els[i as int]).contains(x))
            ||| (i < els.len() && body_step(i as int, els[i as int]).contains(x))
        },
{
    let n = els.len() as int;
    let fk = |j: int, e: ClassElementModel| key_step(j, e);
    let fs = |j: int, e: ClassElementModel| static_step(j, e);
    let fb = |j: int, e: ClassElementModel| body_step(j, e);
    assert forall|j: int| 0 <= j < els.len() && #[trigger] fk(j, els[j]).contains(x) implies j == i by {
        lemma_one(ClassStep::EvalKey(j as usize), x);
        if j as usize == i {
            lemma_element_index(j, i, n);
        }
    }
    assert forall|j: int| 0 <= j < els.len() && #[trigger] fs(j, els[j]).contains(x) implies j == i by {
        match els[j].kind {
            ClassElementKind::Method(m) => {
                lemma_one(ClassStep::DefineStatic { element: j as usize, kind: property_kind(m) }, x);
            },
            _ => {},
        }
        if j as usize == i {
            lemma_element_index(j, i, n);
        }
    }
    assert forall|j: int| 0 <= j < els.len() && #[trigger] fb(j, els[j]).contains(x) implies j == i by {
        lemma_one(ClassStep::RunStaticBlock(j as usize), x);
        lemma_one(ClassStep::SetStaticProperty(j as usize), x);
        if j as usize == i {
            lemma_element_index(j, i, n);
        }
    }
    lemma_steps_over_only(els, n, fk, x, i as int);
    lemma_steps_over_only(els, n, fs, x, i as int);
    lemma_steps_over_only(els, n, fb, x, i as int);
    let p0 = if has_super_class { seq![ClassStep::EvalSuperClass] } else { Seq::empty() };
    let sk = steps_over(els, n, fk);
    let ss = steps_over(els, n, fs);
    let sb = steps_over(els, n, fb);
    let push = seq![ClassStep::PushVariableScope];
    let mid = seq![ClassStep::PopVariableScope, ClassStep::CreateClass, ClassStep::EnterBody];
    let name = if has_id { seq![ClassStep::BindName] } else { Seq::empty() };
    let leave = seq![ClassStep::LeaveBody];
    assert(class_plan_spec(has_super_class, has_id, els) == p0 + sk + push + ss + mid + name + sb + leave);
    concat_contains(p0, sk, x);
    concat_contains(p0 + sk, push, x);
    concat_contains(p0 + sk + push, ss, x);
    concat_contains(p0 + sk + push + ss, mid, x);
    concat_contains(p0 + sk + push + ss + mid, name, x);
    concat_contains(p0 + sk + push + ss + mid + name, sb, x);
    concat_contains(p0 + sk + push + ss + mid + name + sb, leave, x);
    lemma_one(ClassStep::PushVariableScope, x);
    lemma_one(ClassStep::LeaveBody, x);
    lemma_one(ClassStep::EvalSuperClass, x);
    lemma_one(ClassStep::BindName, x);
    assert(mid.contains(x) ==> (x == mid[0] || x == mid[1] || x == mid[2]));
    if i < els.len() {
        assert(fk(i as int, els[i as int]) == key_step(i as int, els[i as int]));
        assert(fs(i as int, els[i as int]) == static_step(i as int, els[i as int]));
        assert(fb(i as int, els[i as int]) == body_step(i as int, els[i as int]));
    }
}

/// Constructing an instance lets the class it extends escape exactly when
/// there is one, lets escape exactly the keys of the instance elements
/// that have one, runs exactly the instance methods, and evaluates exactly
/// the initializers of the instance properties that have one.
pub proof fn law_construct_steps_name_instance_elements(
    has_super_class: bool,
    els: Seq<ClassElementModel>,
    keys: Seq<Option<PropertyKeyType>>,
    i: usize,
)
    requires
        els.len() <= usize::MAX,
        keys.len() == els.len(),
    ensures
        construct_plan_spec(has_super_class, els, keys).contains(ConstructStep::RunMethod(i)) <==> (i < els.len()
            && !els[i as int].is_static && els[i as int].kind is Method),
        construct_plan_spec(has_super_class, els, keys).contains(ConstructStep::MutateKey(i)) <==> (i < els.len()
            && !els[i as int].is_static && keys[i as int] is Some),
        construct_plan_spec(has_super_class, els, keys).contains(ConstructStep::InitProperty(i)) <==> (i
            < els.len() && !els[i as int].is_static && els[i as int].kind == ClassElementKind::Property {
            has_value: true,
        }),
        construct_plan_spec(has_super_class, els, keys).contains(ConstructStep::MutateSuperClass)
            <==> has_super_class,
{
    lemma_construct_step(has_super_class, els, keys, ConstructStep::RunMethod(i), i);
    lemma_construct_step(has_super_class, els, keys, ConstructStep::MutateKey(i), i);
    lemma_construct_step(has_super_class, els, keys, ConstructStep::InitProperty(i), i);
    lemma_construct_step(has_super_class, els, keys, ConstructStep::MutateSuperClass, i);
    lemma_one(ConstructStep::RunMethod(i), ConstructStep::RunMethod(i));
    lemma_one(ConstructStep::MutateKey(i), ConstructStep::MutateKey(i));
    lemma_one(ConstructStep::InitProperty(i), ConstructStep::InitProperty(i));
}

proof fn lemma_construct_step(
    has_super_class: bool,
    els: Seq<ClassElementModel>,
    keys: Seq<Option<PropertyKeyType>>,
    x: ConstructStep,
    i: usize,
)
    requires
        els.len() <= usize::MAX,
        keys.len() == els.len(),
        x == ConstructStep::RunMethod(i) || x == ConstructStep::MutateKey(i) || x == ConstructStep::InitProperty(i)
            || x == ConstructStep::MutateSuperClass,
    ensures
        construct_plan_spec(has_super_class, els, keys).contains(x) <==> {
            ||| (has_super_class && x == ConstructStep::MutateSuperClass)
            ||| (i < els.len() && mutate_key_step(i as int, els[i as int], keys[i as int]).contains(x))
            ||| (i < els.len() && method_step(i as int, els[i as int]).contains(x))
            ||| (i < els.len() && property_step(i as int, els[i as int]).contains(x))
        },
{
    let n = els.len() as int;
    let fk = |j: int, e: ClassElementModel| mutate_key_step(j, e, keys[j]);
    let fm = |j: int, e: ClassElementModel| method_step(j, e);
    let fp = |j: int, e: ClassElementModel| property_step(j, e);
    assert forall|j: int| 0 <= j < els.len() && #[trigger] fk(j, els[j]).contains(x) implies j == i by {
        lemma_one(ConstructStep::MutateKey(j as usize), x);
        if j as usize == i {
            lemma_element_index(j, i, n);
        }
    }
    assert forall|j: int| 0 <= j < els.len() && #[trigger] fm(j, els[j]).contains(x) implies j == i by {
        lemma_one(ConstructStep::RunMethod(j as usize), x);
        if j as usize == i {
            lemma_element_index(j, i, n);
        }
    }
    assert forall|j: int| 0 <= j < els.len() && #[trigger] fp(j, els[j]).contains(x) implies j == i by {
        lemma_one(ConstructStep::InitProperty(j as usize), x);
        if j as usize == i {
            lemma_element_index(j, i, n);
        }
    }
    lemma_steps_over_only(els, n, fk, x, i as int);
    lemma_steps_over_only(els, n, fm, x, i as int);
    lemma_steps_over_only(els, n, fp, x, i as int);
    let p0 = if has_super_class { seq![ConstructStep::MutateSuperClass] } else { Seq::empty() };
    let sk = steps_over(els, n, fk);
    let sm = steps_over(els, n, fm);
    let sp = steps_over(els, n, fp);
    let enter = seq![ConstructStep::EnterConstructor];
    let leave = seq![ConstructStep::LeaveConstructor];
    assert(construct_plan_spec(has_super_class, els, keys) == p0 + sk + sm + enter + sp + leave);
    concat_contains(p0, sk, x);
    concat_contains(p0 + sk, sm, x);
    concat_contains(p0 + sk + sm, enter, x);
    concat_contains(p0 + sk + sm + enter, sp, x);
    concat_contains(p0 + sk + sm + enter + sp, leave, x);
    lemma_one(ConstructStep::EnterConstructor, x);
    lemma_one(ConstructStep::LeaveConstructor, x);
    lemma_one(ConstructStep::MutateSuperClass, x);
    if i < els.len() {
        assert(fk(i as int, els[i as int]) == mutate_key_step(i as int, els[i as int], keys[i as int]));
        assert(fm(i as int, els[i as int]) == method_step(i as int, els[i as int]));
        assert(fp(i as int, els[i as int]) == property_step(i as int, els[i as int]));
    }
}

proof fn concat_contains<S>(a: Seq<S>, b: Seq<S>, x: S)
    ensures
        (a + b).contains(x) <==> a.contains(x) || b.contains(x),
{
    vstd::seq_lib::lemma_seq_concat_contains_all_elements(a, b, x);
}

/// The steps of `s` come in strictly increasing `ord`: in order, and none twice.
pub open spec fn increasing<S>(s: Seq<S>, ord: spec_fn(S) -> int) -> bool {
    forall|p: int, q: int| 0 <= p < q < s.len() ==> ord(#[trigger] s[p]) < ord(#[trigger] s[q])
}

/// Every step of `s` has its `ord` in `[lo, hi)`.
pub open spec fn within<S>(s: Seq<S>, ord: spec_fn(S) -> int, lo: int, hi: int) -> bool {
    forall|p: int| 0 <= p < s.len() ==> lo <= ord(#[trigger] s[p]) < hi
}

proof fn lemma_concat_increasing<S>(a: Seq<S>, b: Seq<S>, ord: spec_fn(S) -> int, lo: int, mid: int, hi: int)
    requires
        lo <= mid <= hi,
        increasing(a, ord),
        increasing(b, ord),
        within(a, ord, lo, mid),
        within(b, ord, mid, hi),
    ensures
        increasing(a + b, ord),
        within(a + b, ord, lo, hi),
{
    let c = a + b;
    assert forall|p: int, q: int| 0 <= p < q < c.len() implies ord(#[trigger] c[p]) < ord(#[trigger] c[q]) by {
        if q < a.len() {
            assert(c[p] == a[p] && c[q] == a[q]);
        } else if p >= a.len() {
            assert(c[p] == b[p - a.len()] && c[q] == b[q - a.len()]);
        } else {
            assert(c[p] == a[p] && c[q] == b[q - a.len()]);
        }
    }
    assert forall|p: int| 0 <= p < c.len() implies lo <= ord(#[trigger] c[p]) < hi by {
        if p < a.len() {
            assert(c[p] == a[p]);
        } else {
            assert(c[p] == b[p - a.len()]);
        }
    }
}

proof fn lemma_steps_over_increasing<S>(
    els: Seq<ClassElementModel>,
    n: int,
    f: spec_fn(int, ClassElementModel) -> Seq<S>,
    ord: spec_fn(S) -> int,
    base: int,
)
    requires
        0 <= n <= els.len(),
        forall|j: int| 0 <= j < els.len() ==> (#[trigger] f(j, els[j])).len() <= 1,
        forall|j: int, k: int| 0 <= j < els.len() && 0 <= k < f(j, els[j]).len() ==> ord(#[trigger] f(j, els[j])[k])
            == base + j,
    ensures
        increasing(steps_over(els, n, f), ord),
        within(steps_over(els, n, f), ord, base, base + n),
    decreases n,
{
    if n > 0 {
        lemma_steps_over_increasing(els, n - 1, f, ord, base);
        let last = f(n - 1, els[n - 1]);
        assert(last.len() <= 1);
        assert(within(last, ord, base + n - 1, base + n)) by {
            assert forall|p: int| 0 <= p < last.len() implies base + n - 1 <= ord(#[trigger] last[p]) < base + n by {
                assert(ord(f(n - 1, els[n - 1])[p]) == base + n - 1);
            }
        }
        assert(increasing(last, ord));
        lemma_concat_increasing(steps_over(els, n - 1, f), last, ord, base, base + n - 1, base + n);
    }
}

proof fn lemma_unit_increasing<S>(x: S, ord: spec_fn(S) -> int, lo: int, hi: int)
    requires
        lo <= ord(x) < hi,
    ensures
        increasing(seq![x], ord),
        within(seq![x], ord, lo, hi),
        increasing(Seq::<S>::empty(), ord),
        within(Seq::<S>::empty(), ord, lo, hi),
{
    assert(seq![x][0] == x);
}

/// A bound above every element position.
pub open spec fn span() -> int {
    usize::MAX as int + 1
}

/// Where a step of running a class definition comes: by part of the plan,
/// then by element.
pub open spec fn class_step_order(s: ClassStep) -> int {
    match s {
        ClassStep::EvalSuperClass => 0,
        ClassStep::EvalKey(i) => span() + i,
        ClassStep::PushVariableScope => 2 * span(),
        ClassStep::DefineStatic { element, .. } => 3 * span() + element,
        ClassStep::PopVariableScope => 4 * span(),
        ClassStep::CreateClass => 5 * span(),
        ClassStep::EnterBody => 6 * span(),
        ClassStep::BindName => 7 * span(),
        ClassStep::RunStaticBlock(i) => 8 * span() + i,
        ClassStep::SetStaticProperty(i) => 8 * span() + i,
        ClassStep::LeaveBody => 9 * span(),
        ClassStep::InitName => 10 * span(),
    }
}

/// Running a class definition goes in this order, each step once: the
/// class it extends; the elements' keys, by position; entering a variable
/// scope; the static methods, by position; leaving it; creating the class;
/// entering its body; binding its name; the static blocks and static
/// property initializers, by position; leaving the body.
pub proof fn law_class_steps_are_ordered(has_super_class: bool, has_id: bool, els: Seq<ClassElementModel>)
    requires
        els.len() <= usize::MAX,
    ensures
        increasing(class_plan_spec(has_super_class, has_id, els), |s: ClassStep| class_step_order(s)),
{
    let ord = |s: ClassStep| class_step_order(s);
    let n = els.len() as int;
    let k = span();
    let fk = |j: int, e: ClassElementModel| key_step(j, e);
    let fs = |j: int, e: ClassElementModel| static_step(j, e);
    let fb = |j: int, e: ClassElementModel| body_step(j, e);
    assert forall|j: int, x: int| 0 <= j < els.len() && 0 <= x < fk(j, els[j]).len() implies ord(
        #[trigger] fk(j, els[j])[x],
    ) == k + j by {}
    assert forall|j: int, x: int| 0 <= j < els.len() && 0 <= x < fs(j, els[j]).len() implies ord(
        #[trigger] fs(j, els[j])[x],
    ) == 3 * k + j by {}
    assert forall|j: int, x: int| 0 <= j < els.len() && 0 <= x < fb(j, els[j]).len() implies ord(
        #[trigger] fb(j, els[j])[x],
    ) == 8 * k + j by {}
    assert forall|j: int| 0 <= j < els.len() implies (#[trigger] fk(j, els[j])).len() <= 1 by {}
    assert forall|j: int| 0 <= j < els.len() implies (#[trigger] fs(j, els[j])).len() <= 1 by {}
    assert forall|j: int| 0 <= j < els.len() implies (#[trigger] fb(j, els[j])).len() <= 1 by {}
    lemma_steps_over_increasing(els, n, fk, ord, k);
    lemma_steps_over_increasing(els, n, fs, ord, 3 * k);
    lemma_steps_over_increasing(els, n, fb, ord, 8 * k);
    let p0 = if has_super_class { seq![ClassStep::EvalSuperClass] } else { Seq::empty() };
    let sk = steps_over(els, n, fk);
    let ss = steps_over(els, n, fs);
    let sb = steps_over(els, n, fb);
    let push = seq![ClassStep::PushVariableScope];
    let mid = seq![ClassStep::PopVariableScope, ClassStep::CreateClass, ClassStep::EnterBody];
    let name = if has_id { seq![ClassStep::BindName] } else { Seq::empty() };
    let leave = seq![ClassStep::LeaveBody];
    assert(class_plan_spec(has_super_class, has_id, els) == p0 + sk + push + ss + mid + name + sb + leave);
    lemma_unit_increasing(ClassStep::EvalSuperClass, ord, 0, k);
    lemma_unit_increasing(ClassStep::PushVariableScope, ord, 2 * k, 3 * k);
    lemma_unit_increasing(ClassStep::BindName, ord, 7 * k, 8 * k);
    lemma_unit_increasing(ClassStep::LeaveBody, ord, 9 * k, 10 * k);
    assert(increasing(mid, ord) && within(mid, ord, 4 * k, 7 * k)) by {
        assert(mid[0] == ClassStep::PopVariableScope && mid[1] == ClassStep::CreateClass && mid[2] == ClassStep::EnterBody);
    }
    lemma_concat_increasing(p0, sk, ord, 0, k, 2 * k);
    lemma_concat_increasing(p0 + sk, push, ord, 0, 2 * k, 3 * k);
    lemma_concat_increasing(p0 + sk + push, ss, ord, 0, 3 * k, 4 * k);
    lemma_concat_increasing(p0 + sk + push + ss, mid, ord, 0, 4 * k, 7 * k);
    lemma_concat_increasing(p0 + sk + push + ss + mid, name, ord, 0, 7 * k, 8 * k);
    lemma_concat_increasing(p0 + sk + push + ss + mid + name, sb, ord, 0, 8 * k, 9 * k);
    lemma_concat_increasing(p0 + sk + push + ss + mid + name + sb, leave, ord, 0, 9 * k, 10 * k);
}

/// Where a step of constructing an instance comes: by part of the plan,
/// then by element.
pub open spec fn construct_step_order(s: ConstructStep) -> int {
    match s {
        ConstructStep::MutateSuperClass => 0,
        ConstructStep::MutateKey(i) => span() + i,
        ConstructStep::RunMethod(i) => 2 * span() + i,
        ConstructStep::EnterConstructor => 3 * span(),
        ConstructStep::InitProperty(i) => 4 * span() + i,
        ConstructStep::LeaveConstructor => 5 * span(),
    }
}

/// Constructing an instance goes in this order, each step once: the class
/// it extends; the instance keys, by position; the instance methods, by
/// position; entering the constructor; the instance property initializers,
/// by position; leaving it.
pub proof fn law_construct_steps_are_ordered(
    has_super_class: bool,
    els: Seq<ClassElementModel>,
    keys: Seq<Option<PropertyKeyType>>,
)
    requires
        els.len() <= usize::MAX,
        keys.len() == els.len(),
    ensures
        increasing(construct_plan_spec(has_super_class, els, keys), |s: ConstructStep| construct_step_order(s)),
{
    let ord = |s: ConstructStep| construct_step_order(s);
    let n = els.len() as int;
    let k = span();
    let fk = |j: int, e: ClassElementModel| mutate_key_step(j, e, keys[j]);
    let fm = |j: int, e: ClassElementModel| method_step(j, e);
    let fp = |j: int, e: ClassElementModel| property_step(j, e);
    assert forall|j: int, x: int| 0 <= j < els.len() && 0 <= x < fk(j, els[j]).len() implies ord(
        #[trigger] fk(j, els[j])[x],
    ) == k + j by {}
    assert forall|j: int, x: int| 0 <= j < els.len() && 0 <= x < fm(j, els[j]).len() implies ord(
        #[trigger] fm(j, els[j])[x],
    ) == 2 * k + j by {}
    assert forall|j: int, x: int| 0 <= j < els.len() && 0 <= x < fp(j, els[j]).len() implies ord(
        #[trigger] fp(j, els[j])[x],
    ) == 4 * k + j by {}
    assert forall|j: int| 0 <= j < els.len() implies (#[trigger] fk(j, els[j])).len() <= 1 by {}
    assert forall|j: int| 0 <= j < els.len() implies (#[trigger] fm(j, els[j])).len() <= 1 by {}
    assert forall|j: int| 0 <= j < els.len() implies (#[trigger] fp(j, els[j])).len() <= 1 by {}
    lemma_steps_over_increasing(els, n, fk, ord, k);
    lemma_steps_over_increasing(els, n, fm, ord, 2 * k);
    lemma_steps_over_increasing(els, n, fp, ord, 4 * k);
    let p0 = if has_super_class { seq![ConstructStep::MutateSuperClass] } else { Seq::empty() };
    let sk = steps_over(els, n, fk);
    let sm = steps_over(els, n, fm);
    let sp = steps_over(els, n, fp);
    let enter = seq![ConstructStep::EnterConstructor];
    let leave = seq![ConstructStep::LeaveConstructor];
    assert(construct_plan_spec(has_super_class, els, keys) == p0 + sk + sm + enter + sp + leave);
    lemma_unit_increasing(ConstructStep::MutateSuperClass, ord, 0, k);
    lemma_unit_increasing(ConstructStep::EnterConstructor, ord, 3 * k, 4 * k);
    lemma_unit_increasing(ConstructStep::LeaveConstructor, ord, 5 * k, 6 * k);
    lemma_concat_increasing(p0, sk, ord, 0, k, 2 * k);
    lemma_concat_increasing(p0 + sk, sm, ord, 0, 2 * k, 3 * k);
    lemma_concat_increasing(p0 + sk + sm, enter, ord, 0, 3 * k, 4 * k);
    lemma_concat_increasing(p0 + sk + sm + enter, sp, ord, 0, 4 * k, 5 * k);
    lemma_concat_increasing(p0 + sk + sm + enter + sp, leave, ord, 0, 5 * k, 6 * k);
}

} // verus!
