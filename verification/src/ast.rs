//! The syntax tree of a TL schema, and the mathematical value of each node.
//!
//! Every node type owns its children. The value of a node (its view) replaces
//! strings by sequences of characters and vectors by sequences, so that the
//! grammar can be stated over values that exist without any allocation.

use vstd::prelude::*;

verus! {

/// A 32-bit natural number: literals, bit indices and magic numbers.
pub type Nat = u32;

/// Value of a lower- or upper-case name.
pub enum NameView {
    Name(Seq<char>),
    NameNs { ns: Seq<char>, name: Seq<char> },
}

/// Value of a [`TLTypeIdent`].
pub enum TypeIdentView {
    Lower(NameView),
    Upper(NameView),
}

/// Value of a [`TLCName`].
pub enum CNameView {
    Name(NameView),
    FullName(NameView, Nat),
    EmptyName,
}

/// Value of a [`TLExpression`].
pub enum ExpressionView {
    Nat(Nat),
    Hash,
    Empty,
    Operator(TLOperator, Box<ExpressionView>),
    Expression(Seq<ExpressionView>),
    Ident(TypeIdentView),
}

/// Value of a [`TLCondition`]: the flags field and the bit tested in it.
pub struct ConditionView {
    pub name: Seq<char>,
    pub bit: Nat,
}

/// Value of a [`TLArg`].
pub enum ArgView {
    Arg(Option<Seq<char>>, ExpressionView),
    OptArg(Seq<char>, ExpressionView),
    ConditionalArg(Option<Seq<char>>, ConditionView, ExpressionView),
    MultiplicityArg(Option<Seq<char>>, Option<ExpressionView>, Seq<ArgView>),
}

/// Value of a [`TLCombinator`].
pub struct CombinatorView {
    pub identifier: CNameView,
    pub args: Seq<ArgView>,
    pub result_type: ExpressionView,
}

/// Value of a [`TLFinal`].
pub enum FinalView {
    New(NameView),
    Final(NameView),
    Empty(NameView),
}

/// Value of a [`TLDeclaration`].
pub enum DeclarationView {
    Final(FinalView),
    BuiltIn(CombinatorView),
    Combinator(CombinatorView),
}

/// Value of a [`TLDeclarationBlock`].
pub enum DeclarationBlockView {
    Types(Seq<DeclarationView>),
    Functions(Seq<DeclarationView>),
}

/// Value of a [`TLProgram`].
pub struct ProgramView {
    pub blocks: Seq<DeclarationBlockView>,
}

/// A name that starts with a lower-case letter, with or without a namespace.
#[derive(Debug)]
pub enum TLLowerName {
    Name(String),
    NameNs { ns: String, name: String },
}

/// A name that starts with an upper-case letter, with or without a namespace.
#[derive(Debug)]
pub enum TLUpperName {
    Name(String),
    NameNs { ns: String, name: String },
}

/// A reference to a type, tagged by the case of its name.
#[derive(Debug)]
pub enum TLTypeIdent {
    Lower(TLLowerName),
    Upper(TLUpperName),
}

/// The name of a combinator: plain, with its magic number, or anonymous.
#[derive(Debug)]
pub enum TLCName {
    Name(TLLowerName),
    FullName(TLLowerName, Nat),
    EmptyName,
}

/// The name that an argument binds.
#[derive(Debug)]
pub enum TLVarName {
    Name(String),
}

/// The prefix operator that produced an expression node.
#[derive(Debug, Clone, Copy, PartialEq, Eq, Structural)]
pub enum TLOperator {
    Plus,
    Bang,
    Bare,
}

/// A type expression.
#[derive(Debug)]
pub enum TLExpression {
    Nat(Nat),
    Hash,
    Empty,
    Operator(TLOperator, Box<TLExpression>),
    Expression(Vec<TLExpression>),
    Ident(TLTypeIdent),
}

/// The condition of a conditional argument: a flags field and a bit in it.
#[derive(Debug)]
pub enum TLCondition {
    Condition(TLVarName, Nat),
}

/// One argument of a combinator.
#[derive(Debug)]
pub enum TLArg {
    Arg(Option<TLVarName>, TLExpression),
    OptArg(TLVarName, TLExpression),
    ConditionalArg(Option<TLVarName>, TLCondition, TLExpression),
    MultiplicityArg(Option<TLVarName>, Option<TLExpression>, Vec<TLArg>),
}

/// A combinator declaration: name, arguments in order, result type.
#[derive(Debug)]
pub struct TLCombinator {
    pub identifier: TLCName,
    pub args: Vec<TLArg>,
    pub result_type: TLExpression,
}

/// A declaration that closes the set of constructors of a type.
#[derive(Debug)]
pub enum TLFinal {
    New(TLUpperName),
    Final(TLUpperName),
    Empty(TLUpperName),
}

/// One declaration of a schema.
#[derive(Debug)]
pub enum TLDeclaration {
    Final(TLFinal),
    BuiltIn(TLCombinator),
    Combinator(TLCombinator),
}

/// A run of declarations of one sort.
#[derive(Debug)]
pub enum TLDeclarationBlock {
    Types(Vec<TLDeclaration>),
    Functions(Vec<TLDeclaration>),
}

/// A whole schema: its blocks in source order.
#[derive(Debug)]
pub struct TLProgram {
    pub blocks: Vec<TLDeclarationBlock>,
}

impl View for TLLowerName {
    type V = NameView;

    open spec fn view(&self) -> NameView {
        match self {
            TLLowerName::Name(name) => NameView::Name(name@),
            TLLowerName::NameNs { ns, name } => NameView::NameNs { ns: ns@, name: name@ },
        }
    }
}

impl View for TLUpperName {
    type V = NameView;

    open spec fn view(&self) -> NameView {
        match self {
            TLUpperName::Name(name) => NameView::Name(name@),
            TLUpperName::NameNs { ns, name } => NameView::NameNs { ns: ns@, name: name@ },
        }
    }
}

impl View for TLTypeIdent {
    type V = TypeIdentView;

    open spec fn view(&self) -> TypeIdentView {
        match self {
            TLTypeIdent::Lower(name) => TypeIdentView::Lower(name@),
            TLTypeIdent::Upper(name) => TypeIdentView::Upper(name@),
        }
    }
}

impl View for TLCName {
    type V = CNameView;

    open spec fn view(&self) -> CNameView {
        match self {
            TLCName::Name(name) => CNameView::Name(name@),
            TLCName::FullName(name, magic) => CNameView::FullName(name@, *magic),
            TLCName::EmptyName => CNameView::EmptyName,
        }
    }
}

impl View for TLVarName {
    type V = Seq<char>;

    open spec fn view(&self) -> Seq<char> {
        match self {
            TLVarName::Name(name) => name@,
        }
    }
}

/// The value of an optional binder.
pub open spec fn binder_view(name: Option<TLVarName>) -> Option<Seq<char>> {
    match name {
        Some(n) => Some(n@),
        None => None,
    }
}

/// The value of an expression, by recursion over the tree.
pub open spec fn expression_view(e: TLExpression) -> ExpressionView
    decreases e,
{
    match e {
        TLExpression::Nat(n) => ExpressionView::Nat(n),
        TLExpression::Hash => ExpressionView::Hash,
        TLExpression::Empty => ExpressionView::Empty,
        TLExpression::Operator(op, inner) => ExpressionView::Operator(
            op,
            Box::new(expression_view(*inner)),
        ),
        TLExpression::Expression(items) => ExpressionView::Expression(
            Seq::new(
                items.len() as nat,
                |i: int|
                    if 0 <= i < items.len() {
                        expression_view(items[i])
                    } else {
                        ExpressionView::Empty
                    },
            ),
        ),
        TLExpression::Ident(ident) => ExpressionView::Ident(ident@),
    }
}

impl View for TLExpression {
    type V = ExpressionView;

    open spec fn view(&self) -> ExpressionView {
        expression_view(*self)
    }
}

impl View for TLCondition {
    type V = ConditionView;

    open spec fn view(&self) -> ConditionView {
        match self {
            TLCondition::Condition(name, bit) => ConditionView { name: name@, bit: *bit },
        }
    }
}

/// The value of an argument, by recursion over nested argument groups.
pub open spec fn arg_view(a: TLArg) -> ArgView
    decreases a,
{
    match a {
        TLArg::Arg(name, ty) => ArgView::Arg(binder_view(name), ty@),
        TLArg::OptArg(name, ty) => ArgView::OptArg(name@, ty@),
        TLArg::ConditionalArg(name, cond, ty) => ArgView::ConditionalArg(
            binder_view(name),
            cond@,
            ty@,
        ),
        TLArg::MultiplicityArg(name, count, nested) => ArgView::MultiplicityArg(
            binder_view(name),
            match count {
                Some(c) => Some(c@),
                None => None,
            },
            Seq::new(
                nested.len() as nat,
                |i: int|
                    if 0 <= i < nested.len() {
                        arg_view(nested[i])
                    } else {
                        ArgView::Arg(None, ExpressionView::Empty)
                    },
            ),
        ),
    }
}

impl View for TLArg {
    type V = ArgView;

    open spec fn view(&self) -> ArgView {
        arg_view(*self)
    }
}

impl View for TLCombinator {
    type V = CombinatorView;

    open spec fn view(&self) -> CombinatorView {
        CombinatorView {
            identifier: self.identifier@,
            args: self.args.deep_view(),
            result_type: self.result_type@,
        }
    }
}

impl View for TLFinal {
    type V = FinalView;

    open spec fn view(&self) -> FinalView {
        match self {
            TLFinal::New(name) => FinalView::New(name@),
            TLFinal::Final(name) => FinalView::Final(name@),
            TLFinal::Empty(name) => FinalView::Empty(name@),
        }
    }
}

impl View for TLDeclaration {
    type V = DeclarationView;

    open spec fn view(&self) -> DeclarationView {
        match self {
            TLDeclaration::Final(f) => DeclarationView::Final(f@),
            TLDeclaration::BuiltIn(c) => DeclarationView::BuiltIn(c@),
            TLDeclaration::Combinator(c) => DeclarationView::Combinator(c@),
        }
    }
}

impl View for TLDeclarationBlock {
    type V = DeclarationBlockView;

    open spec fn view(&self) -> DeclarationBlockView {
        match self {
            TLDeclarationBlock::Types(decls) => DeclarationBlockView::Types(decls.deep_view()),
            TLDeclarationBlock::Functions(decls) => DeclarationBlockView::Functions(
                decls.deep_view(),
            ),
        }
    }
}

impl View for TLProgram {
    type V = ProgramView;

    open spec fn view(&self) -> ProgramView {
        ProgramView { blocks: self.blocks.deep_view() }
    }
}

impl DeepView for TLLowerName {
    type V = NameView;

    open spec fn deep_view(&self) -> NameView {
        self@
    }
}

impl DeepView for TLUpperName {
    type V = NameView;

    open spec fn deep_view(&self) -> NameView {
        self@
    }
}

impl DeepView for TLTypeIdent {
    type V = TypeIdentView;

    open spec fn deep_view(&self) -> TypeIdentView {
        self@
    }
}

impl DeepView for TLCName {
    type V = CNameView;

    open spec fn deep_view(&self) -> CNameView {
        self@
    }
}

impl DeepView for TLVarName {
    type V = Seq<char>;

    open spec fn deep_view(&self) -> Seq<char> {
        self@
    }
}

impl DeepView for TLExpression {
    type V = ExpressionView;

    open spec fn deep_view(&self) -> ExpressionView {
        self@
    }
}

impl DeepView for TLCondition {
    type V = ConditionView;

    open spec fn deep_view(&self) -> ConditionView {
        self@
    }
}

impl DeepView for TLArg {
    type V = ArgView;

    open spec fn deep_view(&self) -> ArgView {
        self@
    }
}

impl DeepView for TLCombinator {
    type V = CombinatorView;

    open spec fn deep_view(&self) -> CombinatorView {
        self@
    }
}

impl DeepView for TLFinal {
    type V = FinalView;

    open spec fn deep_view(&self) -> FinalView {
        self@
    }
}

impl DeepView for TLDeclaration {
    type V = DeclarationView;

    open spec fn deep_view(&self) -> DeclarationView {
        self@
    }
}

impl DeepView for TLDeclarationBlock {
    type V = DeclarationBlockView;

    open spec fn deep_view(&self) -> DeclarationBlockView {
        self@
    }
}

impl DeepView for TLProgram {
    type V = ProgramView;

    open spec fn deep_view(&self) -> ProgramView {
        self@
    }
}

/// The value of `Expression(items)` is the sequence of the items' values.
pub proof fn lemma_sequence_view(items: Vec<TLExpression>)
    ensures
        TLExpression::Expression(items)@ == ExpressionView::Expression(items.deep_view()),
{
    assert(TLExpression::Expression(items)@->Expression_0 =~= items.deep_view());
}

/// The value of a multiplicity argument holds the values of the nested arguments.
pub proof fn lemma_multiplicity_view(
    name: Option<TLVarName>,
    count: Option<TLExpression>,
    nested: Vec<TLArg>,
)
    ensures
        TLArg::MultiplicityArg(name, count, nested)@ == ArgView::MultiplicityArg(
            name.deep_view(),
            count.deep_view(),
            nested.deep_view(),
        ),
{
    assert(TLArg::MultiplicityArg(name, count, nested)@->MultiplicityArg_2
        =~= nested.deep_view());
}

impl Clone for TLLowerName {
    fn clone(&self) -> (r: Self)
        ensures
            r@ == self@,
    {
        match self {
            TLLowerName::Name(name) => TLLowerName::Name(name.clone()),
            TLLowerName::NameNs { ns, name } => TLLowerName::NameNs {
                ns: ns.clone(),
                name: name.clone(),
            },
        }
    }
}

impl Clone for TLUpperName {
    fn clone(&self) -> (r: Self)
        ensures
            r@ == self@,
    {
        match self {
            TLUpperName::Name(name) => TLUpperName::Name(name.clone()),
            TLUpperName::NameNs { ns, name } => TLUpperName::NameNs {
                ns: ns.clone(),
                name: name.clone(),
            },
        }
    }
}

impl Clone for TLTypeIdent {
    fn clone(&self) -> (r: Self)
        ensures
            r@ == self@,
    {
        match self {
            TLTypeIdent::Lower(name) => TLTypeIdent::Lower(name.clone()),
            TLTypeIdent::Upper(name) => TLTypeIdent::Upper(name.clone()),
        }
    }
}

impl Clone for TLVarName {
    fn clone(&self) -> (r: Self)
        ensures
            r@ == self@,
    {
        match self {
            TLVarName::Name(name) => TLVarName::Name(name.clone()),
        }
    }
}

impl Clone for TLExpression {
    /// A deep copy: the result shares nothing with `self` and has the same value.
    fn clone(&self) -> (r: Self)
        ensures
            r@ == self@,
        decreases self,
    {
        match self {
            TLExpression::Nat(n) => TLExpression::Nat(*n),
            TLExpression::Hash => TLExpression::Hash,
            TLExpression::Empty => TLExpression::Empty,
            TLExpression::Operator(op, inner) => TLExpression::Operator(
                *op,
                Box::new((&**inner).clone()),
            ),
            TLExpression::Expression(items) => {
                let mut out: Vec<TLExpression> = Vec::new();
                let mut i: usize = 0;
                while i < items.len()
                    invariant
                        i <= items.len(),
                        out.len() == i,
                        decreases_to!(self => items),
                        forall|j: int| 0 <= j < i ==> out@[j]@ == items@[j]@,
                    decreases items.len() - i,
                {
                    assert(decreases_to!(*items => items[i as int]));
                    let item = items[i].clone();
                    out.push(item);
                    i += 1;
                }
                proof {
                    lemma_sequence_view(out);
                    lemma_sequence_view(*items);
                    assert(out.deep_view() =~= items.deep_view());
                }
                TLExpression::Expression(out)
            },
            TLExpression::Ident(ident) => TLExpression::Ident(ident.clone()),
        }
    }
}

} // verus!
