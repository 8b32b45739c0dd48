//! The expression tree, its mathematical model and its construction helpers.
use vstd::prelude::*;
use vstd::string::StringExecFns;

verus! {

broadcast use {vstd::seq::group_seq_axioms, vstd::std_specs::vec::group_vec_axioms};

/// The mathematical model of an expression: a finite tree over atoms of type `A`.
pub enum Tree<A> {
    Any(Seq<Tree<A>>),
    All(Seq<Tree<A>>),
    Not(Box<Tree<A>>),
    Var(A),
    Const(bool),
}

/// A boolean expression over atoms of type `T`.
#[derive(Debug, PartialEq, Eq)]
pub enum Expr<T> {
    Any(Any<T>),
    All(All<T>),
    Not(Not<T>),
    Var(Var<T>),
    Const(bool),
}

/// Disjunction; the empty list is `false`.
#[derive(Debug, PartialEq, Eq)]
pub struct Any<T>(pub Vec<Expr<T>>);

/// Conjunction; the empty list is `true`.
#[derive(Debug, PartialEq, Eq)]
pub struct All<T>(pub Vec<Expr<T>>);

/// Negation of exactly one child.
#[derive(Debug, PartialEq, Eq)]
pub struct Not<T>(pub Box<Expr<T>>);

/// A leaf holding one atom.
#[derive(Debug, Clone, Copy, PartialEq, Eq, PartialOrd, Ord, Hash)]
pub struct Var<T>(pub T);

/// An atom that can be compared and duplicated, with both operations stated over its view.
pub trait Atom: View + Sized {
    fn same(&self, other: &Self) -> (r: bool)
        ensures
            r == (self@ == other@),
    ;

    fn duplicate(&self) -> (r: Self)
        ensures
            r@ == self@,
    ;
}

impl Atom for u32 {
    fn same(&self, other: &Self) -> (r: bool) {
        *self == *other
    }

    fn duplicate(&self) -> (r: Self) {
        *self
    }
}

impl Atom for i32 {
    fn same(&self, other: &Self) -> (r: bool) {
        *self == *other
    }

    fn duplicate(&self) -> (r: Self) {
        *self
    }
}

impl Atom for u64 {
    fn same(&self, other: &Self) -> (r: bool) {
        *self == *other
    }

    fn duplicate(&self) -> (r: Self) {
        *self
    }
}

pub open spec fn model<T: View>(e: Expr<T>) -> Tree<T::V>
    decreases e,
{
    match e {
        Expr::Any(Any(l)) => Tree::Any(model_list(l@)),
        Expr::All(All(l)) => Tree::All(model_list(l@)),
        Expr::Not(Not(b)) => Tree::Not(Box::new(model(*b))),
        Expr::Var(Var(x)) => Tree::Var(x@),
        Expr::Const(b) => Tree::Const(b),
    }
}

pub open spec fn model_list<T: View>(s: Seq<Expr<T>>) -> Seq<Tree<T::V>>
    decreases s,
{
    if s.len() == 0 {
        Seq::empty()
    } else {
        model_list(s.drop_last()).push(model(s.last()))
    }
}

impl<T: View> View for Expr<T> {
    type V = Tree<T::V>;

    open spec fn view(&self) -> Tree<T::V> {
        model(*self)
    }
}

/// The model of a list is as long as the list.
pub broadcast proof fn lemma_model_list_len<T: View>(s: Seq<Expr<T>>)
    ensures
        #[trigger] model_list(s).len() == s.len(),
    decreases s.len(),
{
    if s.len() > 0 {
        lemma_model_list_len(s.drop_last());
    }
}

/// Each member of the model of a list is the model of the member at that place.
pub broadcast proof fn lemma_model_list_index<T: View>(s: Seq<Expr<T>>, i: int)
    requires
        0 <= i < s.len(),
    ensures
        #[trigger] model_list(s)[i] == model(s[i]),
    decreases s.len(),
{
    lemma_model_list_len(s.drop_last());
    if i < s.len() - 1 {
        lemma_model_list_index(s.drop_last(), i);
    }
}

pub broadcast group group_model {
    lemma_max_height,
    lemma_model_list_len,
    lemma_model_list_index,
    lemma_model_const,
}

/// The model of a list is the list of the models of its members.
pub proof fn lemma_model_list<T: View>(s: Seq<Expr<T>>)
    ensures
        model_list(s).len() == s.len(),
        forall|i: int| 0 <= i < s.len() ==> #[trigger] model_list(s)[i] == model(s[i]),
{
    broadcast use group_model;
}

/// The model of an expression has the same kind as the expression.
pub broadcast proof fn lemma_model_const<T: View>(e: Expr<T>)
    ensures
        #[trigger] model(e) is Const <==> e is Const,
        e is Const ==> model(e) == Tree::<T::V>::Const(e->Const_0),
        model(e) is Any <==> e is Any,
        e is Any ==> model(e) == Tree::<T::V>::Any(model_list(e->Any_0.0@)),
        model(e) is All <==> e is All,
        e is All ==> model(e) == Tree::<T::V>::All(model_list(e->All_0.0@)),
        model(e) is Not <==> e is Not,
        e is Not ==> model(e) == Tree::<T::V>::Not(Box::new(model(*e->Not_0.0))),
        model(e) is Var <==> e is Var,
        e is Var ==> model(e) == Tree::<T::V>::Var(e->Var_0.0@),
{
}

pub proof fn lemma_model_update<T: View>(s: Seq<Expr<T>>, i: int, x: Expr<T>)
    requires
        0 <= i < s.len(),
    ensures
        model_list(s.update(i, x)) == model_list(s).update(i, model(x)),
{
    lemma_model_list(s);
    lemma_model_list(s.update(i, x));
    assert(model_list(s.update(i, x)) =~= model_list(s).update(i, model(x)));
}

pub proof fn lemma_model_remove<T: View>(s: Seq<Expr<T>>, i: int)
    requires
        0 <= i < s.len(),
    ensures
        model_list(s.remove(i)) == model_list(s).remove(i),
{
    lemma_model_list(s);
    lemma_model_list(s.remove(i));
    assert(model_list(s.remove(i)) =~= model_list(s).remove(i));
}

pub proof fn lemma_model_push<T: View>(s: Seq<Expr<T>>, x: Expr<T>)
    ensures
        model_list(s.push(x)) == model_list(s).push(model(x)),
{
    assert(s.push(x).drop_last() =~= s);
}

pub proof fn lemma_model_add<T: View>(a: Seq<Expr<T>>, b: Seq<Expr<T>>)
    ensures
        model_list(a + b) == model_list(a) + model_list(b),
{
    lemma_model_list(a);
    lemma_model_list(b);
    lemma_model_list(a + b);
    assert(model_list(a + b) =~= model_list(a) + model_list(b));
}

impl<T> Expr<T> {
    pub fn is_any(&self) -> (r: bool)
        ensures
            r == self is Any,
    {
        matches!(self, Expr::Any(_))
    }

    pub fn is_all(&self) -> (r: bool)
        ensures
            r == self is All,
    {
        matches!(self, Expr::All(_))
    }

    pub fn is_not(&self) -> (r: bool)
        ensures
            r == self is Not,
    {
        matches!(self, Expr::Not(_))
    }

    pub fn is_var(&self) -> (r: bool)
        ensures
            r == self is Var,
    {
        matches!(self, Expr::Var(_))
    }

    pub fn is_const(&self) -> (r: bool)
        ensures
            r == self is Const,
    {
        matches!(self, Expr::Const(_))
    }

    pub fn is_const_true(&self) -> (r: bool)
        ensures
            r == (*self == Expr::<T>::Const(true)),
    {
        matches!(self, Expr::Const(true))
    }

    pub fn is_expr_not_var(&self) -> (r: bool)
        ensures
            r == (self is Not && *self->Not_0.0 is Var),
    {
        match self {
            Expr::Not(Not(not)) => not.is_var(),
            _ => false,
        }
    }

    /// The members of a disjunction or a conjunction, to be changed in place.
    pub fn as_mut_expr_list(&mut self) -> (r: Option<&mut Vec<Expr<T>>>)
        ensures
            r is Some <==> ((*old(self)) is Any || (*old(self)) is All),
            (*old(self)) is Any ==> *r->0 == old(self)->Any_0.0 && *final(self) == Expr::Any(Any(*final(r->0))),
            (*old(self)) is All ==> *r->0 == old(self)->All_0.0 && *final(self) == Expr::All(All(*final(r->0))),
            r is None ==> *final(self) == *old(self),
    {
        match self {
            Expr::Any(Any(list)) => Some(list),
            Expr::All(All(list)) => Some(list),
            _ => None,
        }
    }

    pub fn as_var(&self) -> (r: Option<&Var<T>>)
        ensures
            r is Some <==> self is Var,
            self is Var ==> *r->0 == self->Var_0,
    {
        match self {
            Expr::Var(var) => Some(var),
            _ => None,
        }
    }

    pub fn as_mut_any(&mut self) -> (r: Option<&mut Any<T>>)
        ensures
            r is Some <==> (*old(self)) is Any,
            (*old(self)) is Any ==> *r->0 == old(self)->Any_0 && *final(self) == Expr::Any(*final(r->0)),
            r is None ==> *final(self) == *old(self),
    {
        match self {
            Expr::Any(any) => Some(any),
            _ => None,
        }
    }

    pub fn as_mut_all(&mut self) -> (r: Option<&mut All<T>>)
        ensures
            r is Some <==> (*old(self)) is All,
            (*old(self)) is All ==> *r->0 == old(self)->All_0 && *final(self) == Expr::All(*final(r->0)),
            r is None ==> *final(self) == *old(self),
    {
        match self {
            Expr::All(all) => Some(all),
            _ => None,
        }
    }

    pub fn as_mut_not(&mut self) -> (r: Option<&mut Not<T>>)
        ensures
            r is Some <==> (*old(self)) is Not,
            (*old(self)) is Not ==> *r->0 == old(self)->Not_0 && *final(self) == Expr::Not(*final(r->0)),
            r is None ==> *final(self) == *old(self),
    {
        match self {
            Expr::Not(not) => Some(not),
            _ => None,
        }
    }

    /// The disjunction under a negation, to be changed in place.
    pub fn as_mut_not_any(&mut self) -> (r: Option<&mut Any<T>>)
        ensures
            r is Some <==> ((*old(self)) is Not && *old(self)->Not_0.0 is Any),
            r is Some ==> *r->0 == (*old(self)->Not_0.0)->Any_0 && *final(self) == Expr::Not(
                Not(Box::new(Expr::Any(*final(r->0)))),
            ),
            r is None ==> *final(self) == *old(self),
    {
        let shaped = match &*self {
            Expr::Not(Not(not)) => not.is_any(),
            _ => false,
        };
        if !shaped {
            return None;
        }
        match self {
            Expr::Not(Not(not)) => match &mut **not {
                Expr::Any(any) => Some(any),
                _ => None,
            },
            _ => None,
        }
    }

    /// The conjunction under a negation, to be changed in place.
    pub fn as_mut_not_all(&mut self) -> (r: Option<&mut All<T>>)
        ensures
            r is Some <==> ((*old(self)) is Not && *old(self)->Not_0.0 is All),
            r is Some ==> *r->0 == (*old(self)->Not_0.0)->All_0 && *final(self) == Expr::Not(
                Not(Box::new(Expr::All(*final(r->0)))),
            ),
            r is None ==> *final(self) == *old(self),
    {
        let shaped = match &*self {
            Expr::Not(Not(not)) => not.is_all(),
            _ => false,
        };
        if !shaped {
            return None;
        }
        match self {
            Expr::Not(Not(not)) => match &mut **not {
                Expr::All(all) => Some(all),
                _ => None,
            },
            _ => None,
        }
    }

    /// `not(any())`.
    pub fn is_empty_not_any(&self) -> (r: bool)
        ensures
            r == (self is Not && *self->Not_0.0 is Any && (*self->Not_0.0)->Any_0.0@.len() == 0),
    {
        match self {
            Expr::Not(Not(not)) => match &**not {
                Expr::Any(Any(list)) => list.len() == 0,
                _ => false,
            },
            _ => false,
        }
    }

    /// `not(all())`.
    pub fn is_empty_not_all(&self) -> (r: bool)
        ensures
            r == (self is Not && *self->Not_0.0 is All && (*self->Not_0.0)->All_0.0@.len() == 0),
    {
        match self {
            Expr::Not(Not(not)) => match &**not {
                Expr::All(All(list)) => list.len() == 0,
                _ => false,
            },
            _ => false,
        }
    }

    pub fn is_const_false(&self) -> (r: bool)
        ensures
            r == (*self == Expr::<T>::Const(false)),
    {
        matches!(self, Expr::Const(false))
    }
}

/// The depth of a tree: leaves have height zero.
pub open spec fn height<A>(t: Tree<A>) -> nat
    decreases t,
{
    match t {
        Tree::Any(l) => 1 + max_height(l),
        Tree::All(l) => 1 + max_height(l),
        Tree::Not(b) => 1 + height(*b),
        _ => 0,
    }
}

/// The largest height of a member of `s`, or zero.
pub open spec fn max_height<A>(s: Seq<Tree<A>>) -> nat
    decreases s,
{
    if s.len() == 0 {
        0
    } else {
        let h = max_height(s.drop_last());
        if h >= height(s.last()) {
            h
        } else {
            height(s.last())
        }
    }
}

pub broadcast proof fn lemma_max_height<A>(s: Seq<Tree<A>>, i: int)
    requires
        0 <= i < s.len(),
    ensures
        height(#[trigger] s[i]) <= max_height(s),
    decreases s.len(),
{
    if i < s.len() - 1 {
        lemma_max_height(s.drop_last(), i);
    }
}

/// A list whose members are all below `h` has its largest height below `h`.
pub proof fn lemma_max_height_bound<A>(s: Seq<Tree<A>>, h: nat)
    requires
        forall|i: int| 0 <= i < s.len() ==> height(#[trigger] s[i]) <= h,
    ensures
        max_height(s) <= h,
    decreases s.len(),
{
    if s.len() > 0 {
        lemma_max_height_bound(s.drop_last(), h);
    }
}

impl<T: Atom> Expr<T> {
    /// Structural equality, stated over the models.
    #[verifier::loop_isolation(false)]
    pub fn equals(&self, other: &Self) -> (r: bool)
        ensures
            r == (self@ == other@),
        decreases self,
    {
        broadcast use group_model;

        match (self, other) {
            (Expr::Any(Any(a)), Expr::Any(Any(b))) => Self::equals_list(a, b),
            (Expr::All(All(a)), Expr::All(All(b))) => Self::equals_list(a, b),
            (Expr::Not(Not(a)), Expr::Not(Not(b))) => {
                let r = a.equals(b);
                proof {
                    if model(**a) != model(**b) {
                        assert(self@->Not_0 != other@->Not_0);
                    }
                }
                r
            },
            (Expr::Var(Var(a)), Expr::Var(Var(b))) => a.same(b),
            (Expr::Const(a), Expr::Const(b)) => *a == *b,
            _ => false,
        }
    }

    /// A copy of the expression, equal in model.
    pub fn duplicate(&self) -> (r: Self)
        ensures
            r@ == self@,
        decreases self,
    {
        broadcast use group_model;

        match self {
            Expr::Any(Any(a)) => Expr::Any(Any(Self::duplicate_list(a))),
            Expr::All(All(a)) => Expr::All(All(Self::duplicate_list(a))),
            Expr::Not(Not(a)) => Expr::Not(Not(Box::new(a.duplicate()))),
            Expr::Var(Var(a)) => Expr::Var(Var(a.duplicate())),
            Expr::Const(b) => Expr::Const(*b),
        }
    }

    #[verifier::loop_isolation(false)]
    fn duplicate_list(a: &Vec<Expr<T>>) -> (r: Vec<Expr<T>>)
        ensures
            model_list(r@) == model_list(a@),
        decreases a,
    {
        broadcast use group_model;

        let mut r: Vec<Expr<T>> = Vec::new();
        let mut i: usize = 0;
        while i < a.len()
            invariant
                i <= a.len(),
                r@.len() == i,
                forall|j: int| 0 <= j < i ==> model(#[trigger] r@[j]) == model(a@[j]),
            decreases a.len() - i,
        {
            proof {
                assert(decreases_to!(a => a@));
                assert(decreases_to!(a@ => a@[i as int]));
            }
            r.push(a[i].duplicate());
            i += 1;
        }
        assert(model_list(r@) =~= model_list(a@));
        r
    }

    #[verifier::loop_isolation(false)]
    fn equals_list(a: &Vec<Expr<T>>, b: &Vec<Expr<T>>) -> (r: bool)
        ensures
            r == (model_list(a@) == model_list(b@)),
        decreases a,
    {
        broadcast use group_model;

        if a.len() != b.len() {
            return false;
        }
        let mut i: usize = 0;
        while i < a.len()
            invariant
                i <= a.len() == b.len(),
                forall|j: int| 0 <= j < i ==> model(#[trigger] a@[j]) == model(b@[j]),
            decreases a.len() - i,
        {
            proof {
                assert(decreases_to!(a => a@));
                assert(decreases_to!(a@ => a@[i as int]));
            }
            if !a[i].equals(&b[i]) {
                assert(model_list(a@)[i as int] != model_list(b@)[i as int]);
                return false;
            }
            i += 1;
        }
        assert(model_list(a@) =~= model_list(b@));
        true
    }
}

/// Conversion of a value into an expression.
pub trait IntoExpr<T>: Sized {
    spec fn spec_into_expr(self) -> Expr<T>;

    fn into_expr(self) -> (r: Expr<T>)
        ensures
            r == self.spec_into_expr(),
    ;
}

impl<T> IntoExpr<T> for Expr<T> {
    open spec fn spec_into_expr(self) -> Expr<T> {
        self
    }

    fn into_expr(self) -> (r: Expr<T>) {
        self
    }
}

impl<T> IntoExpr<T> for Any<T> {
    open spec fn spec_into_expr(self) -> Expr<T> {
        Expr::Any(self)
    }

    fn into_expr(self) -> (r: Expr<T>) {
        Expr::Any(self)
    }
}

impl<T> IntoExpr<T> for All<T> {
    open spec fn spec_into_expr(self) -> Expr<T> {
        Expr::All(self)
    }

    fn into_expr(self) -> (r: Expr<T>) {
        Expr::All(self)
    }
}

impl<T> IntoExpr<T> for Not<T> {
    open spec fn spec_into_expr(self) -> Expr<T> {
        Expr::Not(self)
    }

    fn into_expr(self) -> (r: Expr<T>) {
        Expr::Not(self)
    }
}

impl<T> IntoExpr<T> for Var<T> {
    open spec fn spec_into_expr(self) -> Expr<T> {
        Expr::Var(self)
    }

    fn into_expr(self) -> (r: Expr<T>) {
        Expr::Var(self)
    }
}

impl<T> IntoExpr<T> for bool {
    open spec fn spec_into_expr(self) -> Expr<T> {
        Expr::Const(self)
    }

    fn into_expr(self) -> (r: Expr<T>) {
        Expr::Const(self)
    }
}

/// Wraps any convertible value as an expression.
pub fn expr<T, X: IntoExpr<T>>(x: X) -> (r: Expr<T>)
    ensures
        r == x.spec_into_expr(),
{
    x.into_expr()
}

/// The disjunction of `list`.
pub fn any<T>(list: Vec<Expr<T>>) -> (r: Any<T>)
    ensures
        r.0 == list,
{
    Any(list)
}

/// The conjunction of `list`.
pub fn all<T>(list: Vec<Expr<T>>) -> (r: All<T>)
    ensures
        r.0 == list,
{
    All(list)
}

/// The negation of `x`.
pub fn not<T, X: IntoExpr<T>>(x: X) -> (r: Not<T>)
    ensures
        *r.0 == x.spec_into_expr(),
{
    Not(Box::new(x.into_expr()))
}

/// The leaf holding `x`.
pub fn var<T>(x: T) -> (r: Var<T>)
    ensures
        r.0 == x,
{
    Var(x)
}

/// The literal `x`.
pub fn const_<T>(x: bool) -> (r: Expr<T>)
    ensures
        r == Expr::<T>::Const(x),
{
    Expr::Const(x)
}

/// An atom with a textual form.
pub trait Render: View + Sized {
    spec fn text_of(v: Self::V) -> Seq<char>;

    fn render(&self) -> (r: String)
        ensures
            r@ == Self::text_of(self@),
    ;
}

/// The decimal digits of `n`.
pub open spec fn decimal(n: nat) -> Seq<char>
    decreases n,
{
    if n < 10 {
        seq![digit_char(n)]
    } else {
        decimal(n / 10) + seq![digit_char(n % 10)]
    }
}

pub open spec fn digit_char(d: nat) -> char {
    if d < 10 {
        ((d + 48) as u8) as char
    } else {
        '?'
    }
}

fn digit_str(d: u32) -> (r: &'static str)
    requires
        d < 10,
    ensures
        r@ == seq![digit_char(d as nat)],
{
    proof {
        reveal_strlit("0");
        reveal_strlit("1");
        reveal_strlit("2");
        reveal_strlit("3");
        reveal_strlit("4");
        reveal_strlit("5");
        reveal_strlit("6");
        reveal_strlit("7");
        reveal_strlit("8");
        reveal_strlit("9");
    }
    let r = match d {
        0 => "0",
        1 => "1",
        2 => "2",
        3 => "3",
        4 => "4",
        5 => "5",
        6 => "6",
        7 => "7",
        8 => "8",
        _ => "9",
    };
    assert(r@ =~= seq![digit_char(d as nat)]);
    r
}

impl Render for u32 {
    open spec fn text_of(v: u32) -> Seq<char> {
        decimal(v as nat)
    }

    fn render(&self) -> (r: String)
        decreases *self,
    {
        if *self < 10 {
            String::from_str(digit_str(*self))
        } else {
            let mut r = (*self / 10).render();
            r.append(digit_str(*self % 10));
            r
        }
    }
}

/// The canonical text of a tree.
pub open spec fn render<T: Render>(t: Tree<T::V>) -> Seq<char>
    decreases t,
{
    match t {
        Tree::Any(l) => "any("@ + render_list::<T>(l) + ")"@,
        Tree::All(l) => "all("@ + render_list::<T>(l) + ")"@,
        Tree::Not(b) => "not("@ + render::<T>(*b) + ")"@,
        Tree::Var(a) => T::text_of(a),
        Tree::Const(b) => if b {
            "true"@
        } else {
            "false"@
        },
    }
}

/// The members of `s` rendered and separated by `", "`.
pub open spec fn render_list<T: Render>(s: Seq<Tree<T::V>>) -> Seq<char>
    decreases s,
{
    if s.len() == 0 {
        Seq::empty()
    } else if s.len() == 1 {
        render::<T>(s[0])
    } else {
        render_list::<T>(s.drop_last()) + ", "@ + render::<T>(s.last())
    }
}

impl<T: Render> Expr<T> {
    /// The canonical text of the expression.
    pub fn to_string(&self) -> (r: String)
        ensures
            r@ == render::<T>(self@),
    {
        let mut out = String::new();
        self.write_to(&mut out);
        assert(out@ =~= render::<T>(self@));
        out
    }

    #[verifier::loop_isolation(false)]
    fn write_to(&self, out: &mut String)
        ensures
            final(out)@ == old(out)@ + render::<T>(self@),
        decreases self,
    {
        broadcast use group_model;

        match self {
            Expr::Any(Any(list)) => {
                out.append("any(");
                Self::write_list(list, out);
                out.append(")");
            },
            Expr::All(All(list)) => {
                out.append("all(");
                Self::write_list(list, out);
                out.append(")");
            },
            Expr::Not(Not(not)) => {
                out.append("not(");
                not.write_to(out);
                out.append(")");
            },
            Expr::Var(Var(x)) => {
                let s = x.render();
                out.append(s.as_str());
            },
            Expr::Const(b) => {
                if *b {
                    out.append("true");
                } else {
                    out.append("false");
                }
            },
        }
    }

    #[verifier::loop_isolation(false)]
    fn write_list(list: &Vec<Expr<T>>, out: &mut String)
        ensures
            final(out)@ == old(out)@ + render_list::<T>(model_list(list@)),
        decreases list,
    {
        broadcast use group_model;

        let ghost start = out@;
        let ghost m = model_list(list@);
        let mut i: usize = 0;
        while i < list.len()
            invariant
                i <= list.len(),
                out@ == start + render_list::<T>(m.take(i as int)),
            decreases list.len() - i,
        {
            proof {
                assert(decreases_to!(list => list@));
                assert(decreases_to!(list@ => list@[i as int]));
                assert(m.take(i + 1).drop_last() =~= m.take(i as int));
                assert(m[i as int] == model(list@[i as int]));
            }
            if i > 0 {
                out.append(", ");
            }
            list[i].write_to(out);
            proof {
                if i == 0 {
                    assert(m.take(1) =~= seq![m[0]]);
                    assert(m.take(0) =~= Seq::<Tree<T::V>>::empty());
                }
            }
            i += 1;
        }
        assert(m.take(list.len() as int) =~= m);
    }
}

} // verus!
