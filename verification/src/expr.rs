//! Resolving sparse, name-addressed terms into a linear expression over
//! variable handles.

use vstd::prelude::*;
use crate::error::{result_view, Cause, Failure};
use crate::schema::{CoeffVar, TermView};

verus! {

/// A linear expression: `constant` plus, for each term, the factor times the
/// variable behind the handle. A handle may occur in several terms; their
/// factors add up.
#[derive(Clone, Debug, PartialEq)]
pub struct LinearExpr<N> {
    pub constant: N,
    pub terms: Vec<(usize, N)>,
}

/// View of a [`LinearExpr`].
pub struct ExprView<N> {
    pub constant: N,
    pub terms: Seq<(usize, N)>,
}

impl<N> View for LinearExpr<N> {
    type V = ExprView<N>;

    open spec fn view(&self) -> ExprView<N> {
        ExprView { constant: self.constant, terms: self.terms@ }
    }
}

impl<N> DeepView for LinearExpr<N> {
    type V = ExprView<N>;

    #[verifier::inline]
    open spec fn deep_view(&self) -> ExprView<N> {
        self@
    }
}

/// A mapping from names to handles, as a list of pairs. Where a name occurs
/// more than once, its first pair counts.
pub type Mapping = Seq<(Seq<char>, usize)>;

/// Entry `i` of `mapping` is the first one for `name`.
pub open spec fn is_first_entry(mapping: Mapping, name: Seq<char>, i: int) -> bool {
    &&& 0 <= i < mapping.len()
    &&& mapping[i].0 == name
    &&& forall|j: int| 0 <= j < i ==> (#[trigger] mapping[j]).0 != name
}

/// `mapping` has an entry for `name`.
pub open spec fn binds(mapping: Mapping, name: Seq<char>) -> bool {
    exists|i: int| 0 <= i < mapping.len() && (#[trigger] mapping[i]).0 == name
}

/// The handle of the first entry that `mapping` has for `name`.
pub open spec fn handle_of(mapping: Mapping, name: Seq<char>) -> usize {
    mapping[choose|i: int| is_first_entry(mapping, name, i)].1
}

/// The handle that `mapping` gives to `name`, if it has an entry for it.
pub open spec fn resolve(mapping: Mapping, name: Seq<char>) -> Option<usize> {
    if binds(mapping, name) {
        Some(handle_of(mapping, name))
    } else {
        None
    }
}

/// Term `i` of `terms` is the first one whose name `mapping` does not bind.
pub open spec fn is_first_unbound<N>(mapping: Mapping, terms: Seq<TermView<N>>, i: int) -> bool {
    &&& 0 <= i < terms.len()
    &&& !binds(mapping, terms[i].name)
    &&& forall|j: int| 0 <= j < i ==> binds(mapping, (#[trigger] terms[j]).name)
}

/// `mapping` binds the name of every term.
pub open spec fn resolvable<N>(mapping: Mapping, terms: Seq<TermView<N>>) -> bool {
    forall|i: int| 0 <= i < terms.len() ==> binds(mapping, (#[trigger] terms[i]).name)
}

/// The name of the first term that `mapping` does not bind.
pub open spec fn first_unbound<N>(mapping: Mapping, terms: Seq<TermView<N>>) -> Seq<char> {
    terms[choose|i: int| is_first_unbound(mapping, terms, i)].name
}

/// The terms with each name replaced by its handle, in the order given.
pub open spec fn resolved_terms<N>(mapping: Mapping, terms: Seq<TermView<N>>) -> Seq<(usize, N)> {
    Seq::new(terms.len(), |i: int| (handle_of(mapping, terms[i].name), terms[i].factor))
}

/// What building an expression gives: the expression, where every name is
/// bound, and otherwise the failure that carries the first unbound name.
pub open spec fn build<N>(mapping: Mapping, offset: N, terms: Seq<TermView<N>>) -> Result<
    ExprView<N>,
    Cause,
> {
    if resolvable(mapping, terms) {
        Ok(ExprView { constant: offset, terms: resolved_terms(mapping, terms) })
    } else {
        Err(Cause::UnknownVariable(first_unbound(mapping, terms)))
    }
}

/// A bound name has a first entry, and resolves to the handle of that entry.
pub proof fn lemma_resolve(mapping: Mapping, name: Seq<char>)
    ensures
        binds(mapping, name) <==> exists|i: int| is_first_entry(mapping, name, i),
        forall|i: int|
            is_first_entry(mapping, name, i) ==> resolve(mapping, name) == Some(
                (#[trigger] mapping[i]).1,
            ),
        binds(mapping, name) ==> exists|i: int|
            0 <= i < mapping.len() && #[trigger] mapping[i] == (name, handle_of(mapping, name)),
{
    if binds(mapping, name) {
        let k = choose|i: int| 0 <= i < mapping.len() && (#[trigger] mapping[i]).0 == name;
        lemma_first_entry_exists(mapping, name, k);
    }
    if exists|i: int| is_first_entry(mapping, name, i) {
        let c = choose|i: int| is_first_entry(mapping, name, i);
        assert(mapping[c] == (name, mapping[c].1));
        assert forall|i: int| is_first_entry(mapping, name, i) implies i == c by {
            if i < c {
                assert(mapping[i].0 == name);
            } else if c < i {
                assert(mapping[c].0 == name);
            }
        }
    }
}

proof fn lemma_first_entry_exists(mapping: Mapping, name: Seq<char>, k: int)
    requires
        0 <= k < mapping.len(),
        mapping[k].0 == name,
    ensures
        exists|i: int| is_first_entry(mapping, name, i),
    decreases k,
{
    if forall|j: int| 0 <= j < k ==> (#[trigger] mapping[j]).0 != name {
        assert(is_first_entry(mapping, name, k));
    } else {
        let j = choose|j: int| 0 <= j < k && (#[trigger] mapping[j]).0 == name;
        lemma_first_entry_exists(mapping, name, j);
    }
}

/// Looks `name` up in `vars`: the handle of the first entry with that name.
pub fn lookup(vars: &Vec<(String, usize)>, name: &String) -> (r: Option<usize>)
    ensures
        r == resolve(vars.deep_view(), name@),
{
    let ghost mapping = vars.deep_view();
    let mut i: usize = 0;
    while i < vars.len()
        invariant
            i <= vars.len(),
            mapping == vars.deep_view(),
            forall|j: int| 0 <= j < i ==> (#[trigger] mapping[j]).0 != name@,
        decreases vars.len() - i,
    {
        if vars[i].0 == *name {
            proof {
                assert(mapping[i as int] == (vars[i as int].0@, vars[i as int].1));
                assert(is_first_entry(mapping, name@, i as int));
                lemma_resolve(mapping, name@);
            }
            return Some(vars[i].1);
        }
        assert(mapping[i as int].0 == vars[i as int].0@);
        i += 1;
    }
    proof {
        lemma_resolve(mapping, name@);
    }
    None
}

/// Builds the expression `off + sum(factor * variable)` from sparse terms,
/// looking each name up in `vars`.
///
/// Fails on the first term whose name `vars` does not bind, and then builds
/// nothing.
pub fn to_expr<N: Copy>(vars: &Vec<(String, usize)>, off: N, coeff: &Vec<CoeffVar<N>>) -> (r:
    Result<LinearExpr<N>, Failure>)
    ensures
        result_view(r) == build(vars.deep_view(), off, coeff.deep_view()),
{
    let ghost mapping = vars.deep_view();
    let ghost terms = coeff.deep_view();
    let mut resolved: Vec<(usize, N)> = Vec::new();
    let mut i: usize = 0;
    while i < coeff.len()
        invariant
            i <= coeff.len(),
            mapping == vars.deep_view(),
            terms == coeff.deep_view(),
            resolved@.len() == i,
            forall|j: int| 0 <= j < i ==> binds(mapping, (#[trigger] terms[j]).name),
            forall|j: int|
                0 <= j < i ==> #[trigger] resolved@[j] == (
                    handle_of(mapping, terms[j].name),
                    terms[j].factor,
                ),
        decreases coeff.len() - i,
    {
        proof {
            lemma_resolve(mapping, terms[i as int].name);
        }
        match lookup(vars, &coeff[i].name) {
            Some(handle) => {
                resolved.push((handle, coeff[i].factor));
            },
            None => {
                proof {
                    assert(is_first_unbound(mapping, terms, i as int));
                    lemma_first_unbound_unique(mapping, terms, i as int);
                }
                return Err(Failure::UnknownVariable(coeff[i].name.clone()));
            },
        }
        i += 1;
    }
    assert(resolved@ =~= resolved_terms(mapping, terms));
    Ok(LinearExpr { constant: off, terms: resolved })
}

/// There is at most one first unbound term.
pub proof fn lemma_first_unbound_unique<N>(mapping: Mapping, terms: Seq<TermView<N>>, i: int)
    requires
        is_first_unbound(mapping, terms, i),
    ensures
        !resolvable(mapping, terms),
        first_unbound(mapping, terms) == terms[i].name,
{
    let c = choose|k: int| is_first_unbound(mapping, terms, k);
    if c < i {
        assert(binds(mapping, terms[c].name));
    } else if i < c {
        assert(binds(mapping, terms[i].name));
    }
}

/// Terms that are not all bound have a first unbound one.
pub proof fn lemma_first_unbound_exists<N>(mapping: Mapping, terms: Seq<TermView<N>>) -> (t: int)
    requires
        !resolvable(mapping, terms),
    ensures
        is_first_unbound(mapping, terms, t),
        first_unbound(mapping, terms) == terms[t].name,
{
    let k = choose|k: int| 0 <= k < terms.len() && !binds(mapping, (#[trigger] terms[k]).name);
    let t = least_unbound(mapping, terms, k);
    lemma_first_unbound_unique(mapping, terms, t);
    t
}

proof fn least_unbound<N>(mapping: Mapping, terms: Seq<TermView<N>>, k: int) -> (t: int)
    requires
        0 <= k < terms.len(),
        !binds(mapping, terms[k].name),
    ensures
        is_first_unbound(mapping, terms, t),
    decreases k,
{
    if forall|j: int| 0 <= j < k ==> binds(mapping, (#[trigger] terms[j]).name) {
        k
    } else {
        let j = choose|j: int| 0 <= j < k && !binds(mapping, (#[trigger] terms[j]).name);
        least_unbound(mapping, terms, j)
    }
}

/// A way of reckoning with numbers: how two of them add up and multiply,
/// what the opposite of one is, and when one is at most another.
///
/// The crate itself never reckons. The laws that speak of what an expression
/// comes to hold of every arithmetic, or of every one with the properties
/// that the law names.
#[verifier::reject_recursive_types(N)]
pub struct Arithmetic<N> {
    pub sum: spec_fn(N, N) -> N,
    pub product: spec_fn(N, N) -> N,
    pub opposite: spec_fn(N) -> N,
    pub at_most: spec_fn(N, N) -> bool,
}

impl<N> Arithmetic<N> {
    /// `a + b`
    pub open spec fn plus(self, a: N, b: N) -> N {
        (self.sum)(a, b)
    }

    /// `a * b`
    pub open spec fn times(self, a: N, b: N) -> N {
        (self.product)(a, b)
    }

    /// `-a`
    pub open spec fn neg(self, a: N) -> N {
        (self.opposite)(a)
    }

    /// `a <= b`
    pub open spec fn le(self, a: N, b: N) -> bool {
        (self.at_most)(a, b)
    }
}

impl<N> ExprView<N> {
    /// What the expression comes to where the variable behind handle `h` has
    /// the value `at(h)`: the constant plus each factor times the value of
    /// its variable, added from the left.
    pub open spec fn value(self, ops: Arithmetic<N>, at: spec_fn(usize) -> N) -> N
        decreases self.terms.len(),
    {
        if self.terms.len() == 0 {
            self.constant
        } else {
            let (handle, factor) = self.terms.last();
            let rest = ExprView { constant: self.constant, terms: self.terms.drop_last() };
            ops.plus(rest.value(ops, at), ops.times(factor, at(handle)))
        }
    }
}

/// What sparse terms over an offset come to where the variable called `name`
/// has the value `at(name)`.
pub open spec fn named_value<N>(
    offset: N,
    terms: Seq<TermView<N>>,
    ops: Arithmetic<N>,
    at: spec_fn(Seq<char>) -> N,
) -> N
    decreases terms.len(),
{
    if terms.len() == 0 {
        offset
    } else {
        ops.plus(
            named_value(offset, terms.drop_last(), ops, at),
            ops.times(terms.last().factor, at(terms.last().name)),
        )
    }
}

/// Resolving names changes nothing of what an expression comes to: however
/// numbers add and multiply, and whatever value each handle has, the built
/// expression comes to what the sparse terms come to when each name has the
/// value of its handle.
pub proof fn lemma_build_keeps_value<N>(
    mapping: Mapping,
    offset: N,
    terms: Seq<TermView<N>>,
    ops: Arithmetic<N>,
    at: spec_fn(usize) -> N,
)
    requires
        resolvable(mapping, terms),
    ensures
        build(mapping, offset, terms) matches Ok(e) && e.value(ops, at) == named_value(
            offset,
            terms,
            ops,
            |name: Seq<char>| at(handle_of(mapping, name)),
        ),
    decreases terms.len(),
{
    let e = ExprView { constant: offset, terms: resolved_terms(mapping, terms) };
    if terms.len() > 0 {
        assert(e.terms.drop_last() =~= resolved_terms(mapping, terms.drop_last()));
        lemma_build_keeps_value(mapping, offset, terms.drop_last(), ops, at);
    }
}

} // verus!
