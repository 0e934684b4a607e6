//! From a declaration to a validated domain.

use vstd::prelude::*;
use crate::error::SpecError;
use crate::parser::{FlagnumDecl, FlagnumEnum, Variant, WithAttrs};
use crate::repr::FlagnumRepr;

verus! {

/// Whether the name at position `j` of `names` stands at an earlier position
/// too.
pub open spec fn repeated_at(names: Seq<Seq<char>>, j: int) -> bool {
    0 <= j < names.len() && exists|k: int| 0 <= k < j && names[k] == names[j]
}

/// Whether no name stands at two positions.
pub open spec fn distinct(names: Seq<Seq<char>>) -> bool {
    forall|j: int| !repeated_at(names, j)
}

/// Whether the first `i` variants are bare names without a code of their own.
pub open spec fn plain_below(body: FlagnumEnum, i: int) -> bool {
    forall|k: int| 0 <= k < i && k < body.variants@.len() ==> (#[trigger] body.variants@[k]).plain()
}

/// Whether tag `t` of item `i` names a group that is not declared.
pub open spec fn undeclared_at(decl: FlagnumDecl, body: FlagnumEnum, i: int, t: int) -> bool {
    0 <= i < body.variants@.len() && 0 <= t < body.variants@[i].tags().len()
        && !decl.group_names().contains(body.variants@[i].tags()[t])
}

/// Whether every tag that comes before tag `t` of item `i` names a declared
/// group.
pub open spec fn declared_before(decl: FlagnumDecl, body: FlagnumEnum, i: int, t: int) -> bool {
    forall|k: int, u: int| (k < i || (k == i && u < t)) ==> !undeclared_at(decl, body, k, u)
}

/// What a validated domain needs beyond the rules that have an error of
/// their own: at least one item, and no item name twice.
pub open spec fn well_posed(body: FlagnumEnum) -> bool {
    body.variants@.len() >= 1 && distinct(body.names())
}

/// Whether the declaration is refused with the error `e`.
///
/// The rules are taken in a fixed order, and within a rule the first
/// offending position is reported, so that a declaration has one error at
/// most.
pub open spec fn rejects(decl: FlagnumDecl, body: FlagnumEnum, e: SpecError) -> bool {
    let groups = decl.group_names();
    let len = body.variants@.len();
    match e {
        SpecError::DuplicateGroupDeclaration { group } => repeated_at(groups, group as int)
            && forall|k: int| 0 <= k < group ==> !repeated_at(groups, k),
        SpecError::ExplicitCodeNotAllowed { item } => distinct(groups) && item < len
            && plain_below(body, item as int) && body.variants@[item as int].has_discriminant,
        SpecError::UnsupportedItemShape { item } => distinct(groups) && item < len && plain_below(
            body,
            item as int,
        ) && !body.variants@[item as int].has_discriminant && !body.variants@[item as int].is_unit,
        SpecError::TooManyItems { count } => distinct(groups) && plain_below(body, len as int)
            && count == len && len > 128,
        SpecError::UndeclaredGroup { item, tag } => distinct(groups) && plain_below(
            body,
            len as int,
        ) && len <= 128 && undeclared_at(decl, body, item as int, tag as int) && declared_before(
            decl,
            body,
            item as int,
            tag as int,
        ),
    }
}

/// Whether the declaration breaks no rule.
pub open spec fn valid(decl: FlagnumDecl, body: FlagnumEnum) -> bool {
    &&& distinct(decl.group_names())
    &&& plain_below(body, body.variants@.len() as int)
    &&& body.variants@.len() <= 128
    &&& forall|i: int, t: int| !undeclared_at(decl, body, i, t)
}

/// A declaration is refused with one error at most, and with none when it
/// is valid.
pub proof fn lemma_rejects_once(decl: FlagnumDecl, body: FlagnumEnum, a: SpecError, b: SpecError)
    requires
        rejects(decl, body, a),
    ensures
        !valid(decl, body),
        rejects(decl, body, b) ==> a == b,
{
    let groups = decl.group_names();
    let len = body.variants@.len();
    match a {
        SpecError::DuplicateGroupDeclaration { group } => {
            assert(repeated_at(groups, group as int));
        },
        SpecError::ExplicitCodeNotAllowed { item } => {
            assert(!body.variants@[item as int].plain());
        },
        SpecError::UnsupportedItemShape { item } => {
            assert(!body.variants@[item as int].plain());
        },
        SpecError::TooManyItems { count } => {},
        SpecError::UndeclaredGroup { item, tag } => {
            assert(undeclared_at(decl, body, item as int, tag as int));
        },
    }
    if rejects(decl, body, b) {
        match (a, b) {
            (
                SpecError::DuplicateGroupDeclaration { group: g1 },
                SpecError::DuplicateGroupDeclaration { group: g2 },
            ) => {
                assert(repeated_at(groups, g1 as int));
                assert(repeated_at(groups, g2 as int));
            },
            (SpecError::DuplicateGroupDeclaration { group }, _) => {
                assert(repeated_at(groups, group as int));
            },
            (_, SpecError::DuplicateGroupDeclaration { group }) => {
                assert(repeated_at(groups, group as int));
            },
            (SpecError::UndeclaredGroup { item: i1, tag: t1 }, SpecError::UndeclaredGroup { item: i2, tag: t2 }) => {
                assert(undeclared_at(decl, body, i1 as int, t1 as int));
                assert(undeclared_at(decl, body, i2 as int, t2 as int));
            },
            _ => {
                match a {
                    SpecError::ExplicitCodeNotAllowed { item } => {
                        assert(!body.variants@[item as int].plain());
                    },
                    SpecError::UnsupportedItemShape { item } => {
                        assert(!body.variants@[item as int].plain());
                    },
                    _ => {},
                }
                match b {
                    SpecError::ExplicitCodeNotAllowed { item } => {
                        assert(!body.variants@[item as int].plain());
                    },
                    SpecError::UnsupportedItemShape { item } => {
                        assert(!body.variants@[item as int].plain());
                    },
                    _ => {},
                }
            },
        }
    }
}

/// Whether `name` is the name of one of the first `bound` groups.
fn declared_below(groups: &Vec<WithAttrs<String>>, bound: usize, name: &String) -> (r: bool)
    requires
        bound <= groups@.len(),
    ensures
        r == exists|k: int| 0 <= k < bound && groups@[k].value@ == name@,
{
    let mut k: usize = 0;
    while k < bound
        invariant
            k <= bound <= groups@.len(),
            forall|q: int| 0 <= q < k ==> groups@[q].value@ != name@,
        decreases bound - k,
    {
        if groups[k].value == *name {
            return true;
        }
        k = k + 1;
    }
    false
}

/// Whether the name of the variant at position `j` is the name of one of the
/// variants before it.
fn named_before(variants: &Vec<Variant>, j: usize) -> (r: bool)
    requires
        j < variants@.len(),
    ensures
        r == exists|k: int| 0 <= k < j && variants@[k].name@ == variants@[j as int].name@,
{
    let mut k: usize = 0;
    while k < j
        invariant
            k <= j < variants@.len(),
            forall|q: int| 0 <= q < k ==> variants@[q].name@ != variants@[j as int].name@,
        decreases j - k,
    {
        if variants[k].name == variants[j].name {
            return true;
        }
        k = k + 1;
    }
    false
}

/// Whether the item type has at least one item and no item name twice:
/// what a declaration has to meet before it can be validated.
pub fn is_well_posed(body: &FlagnumEnum) -> (r: bool)
    ensures
        r == well_posed(*body),
{
    let ghost names = body.names();
    if body.variants.len() == 0 {
        return false;
    }
    let mut j: usize = 0;
    while j < body.variants.len()
        invariant
            j <= body.variants@.len(),
            names == body.names(),
            forall|k: int| 0 <= k < j ==> !repeated_at(names, k),
        decreases body.variants@.len() - j,
    {
        let seen = named_before(&body.variants, j);
        proof {
            assert(forall|k: int|
                0 <= k < names.len() ==> names[k] == body.variants@[k].name@);
            if seen {
                let k = choose|k: int|
                    0 <= k < j && body.variants@[k].name@ == body.variants@[j as int].name@;
                assert(names[k] == names[j as int]);
                assert(repeated_at(names, j as int));
            }
        }
        if seen {
            return false;
        }
        j = j + 1;
    }
    true
}

/// A declaration that breaks no rule, with the representation chosen for
/// it.
pub struct FlagnumContext {
    pub(crate) decl: FlagnumDecl,
    pub(crate) body: FlagnumEnum,
    pub(crate) repr: FlagnumRepr,
}

impl FlagnumContext {
    /// What was declared of the set type.
    pub closed spec fn decl(self) -> FlagnumDecl {
        self.decl
    }

    /// What was declared of the item type.
    pub closed spec fn body(self) -> FlagnumEnum {
        self.body
    }

    /// The representation chosen for the sets of the domain.
    pub closed spec fn repr(self) -> FlagnumRepr {
        self.repr
    }

    /// Whether the context holds a valid declaration and the representation
    /// that belongs to it.
    #[verifier::type_invariant]
    pub open spec fn wf(self) -> bool {
        &&& valid(self.decl(), self.body())
        &&& well_posed(self.body())
        &&& Some(self.repr()) == FlagnumRepr::spec_for_len(self.body().len())
    }

    /// The accessors give the parts that the context holds.
    pub(crate) proof fn lemma_parts(self)
        ensures
            self.decl() == self.decl,
            self.body() == self.body,
            self.repr() == self.repr,
    {
    }

    /// Validates a declaration.
    ///
    /// The result is the validated domain, or the first rule that the
    /// declaration breaks: a group declared twice, then an item with a code
    /// of its own or with fields, then more than 128 items, then a tag that
    /// names no declared group.
    pub fn new(decl: FlagnumDecl, body: FlagnumEnum) -> (r: Result<Self, SpecError>)
        requires
            well_posed(body),
        ensures
            r.is_ok() <==> valid(decl, body),
            r matches Ok(ctx) ==> ctx.decl() == decl && ctx.body() == body && ctx.wf(),
            r matches Err(e) ==> rejects(decl, body, e),
    {
        let ghost groups = decl.group_names();
        let mut j: usize = 0;
        while j < decl.groups.len()
            invariant
                j <= decl.groups@.len(),
                groups == decl.group_names(),
                forall|k: int| 0 <= k < j ==> !repeated_at(groups, k),
            decreases decl.groups@.len() - j,
        {
            let seen = declared_below(&decl.groups, j, &decl.groups[j].value);
            proof {
                assert(forall|k: int|
                    0 <= k < groups.len() ==> groups[k] == decl.groups@[k].value@);
                if seen {
                    let k = choose|k: int| 0 <= k < j && decl.groups@[k].value@ == decl.groups@[j as int].value@;
                    assert(groups[k] == groups[j as int]);
                }
            }
            if seen {
                proof {
                    lemma_rejects_once(
                        decl,
                        body,
                        SpecError::DuplicateGroupDeclaration { group: j },
                        SpecError::DuplicateGroupDeclaration { group: j },
                    );
                }
                return Err(SpecError::DuplicateGroupDeclaration { group: j });
            }
            j = j + 1;
        }
        assert(distinct(groups));
        let n = body.variants.len();
        let mut i: usize = 0;
        while i < n
            invariant
                i <= n,
                n == body.variants@.len(),
                plain_below(body, i as int),
                distinct(decl.group_names()),
            decreases n - i,
        {
            if body.variants[i].has_discriminant {
                let e = SpecError::ExplicitCodeNotAllowed { item: i };
                proof {
                    lemma_rejects_once(decl, body, e, e);
                }
                return Err(e);
            }
            if !body.variants[i].is_unit {
                let e = SpecError::UnsupportedItemShape { item: i };
                proof {
                    lemma_rejects_once(decl, body, e, e);
                }
                return Err(e);
            }
            i = i + 1;
        }
        let repr = match FlagnumRepr::try_from_enum_len(n) {
            Some(repr) => repr,
            None => {
                let e = SpecError::TooManyItems { count: n };
                proof {
                    lemma_rejects_once(decl, body, e, e);
                }
                return Err(e);
            },
        };
        let mut i: usize = 0;
        while i < n
            invariant
                i <= n,
                n == body.variants@.len(),
                n <= 128,
                groups == decl.group_names(),
                plain_below(body, n as int),
                distinct(decl.group_names()),
                declared_before(decl, body, i as int, 0),
            decreases n - i,
        {
            let tags = &body.variants[i].groups;
            let mut t: usize = 0;
            while t < tags.len()
                invariant
                    i < n,
                    n == body.variants@.len(),
                    n <= 128,
                    groups == decl.group_names(),
                    tags == &body.variants@[i as int].groups,
                    t <= tags@.len(),
                    plain_below(body, n as int),
                    distinct(decl.group_names()),
                    declared_before(decl, body, i as int, t as int),
                decreases tags@.len() - t,
            {
                let known = declared_below(&decl.groups, decl.groups.len(), &tags[t]);
                proof {
                    let tag = body.variants@[i as int].tags()[t as int];
                    assert(tag == tags@[t as int]@);
                    assert(forall|k: int|
                        0 <= k < groups.len() ==> groups[k] == decl.groups@[k].value@);
                    if known {
                        let k = choose|k: int|
                            0 <= k < decl.groups@.len() && decl.groups@[k].value@ == tags@[t as int]@;
                        assert(groups[k] == tag);
                        assert(groups.contains(tag));
                    } else {
                        if groups.contains(tag) {
                            let k = choose|k: int| 0 <= k < groups.len() && groups[k] == tag;
                            assert(decl.groups@[k].value@ == tags@[t as int]@);
                        }
                    }
                    assert(known == !undeclared_at(decl, body, i as int, t as int));
                }
                if !known {
                    let e = SpecError::UndeclaredGroup { item: i, tag: t };
                    proof {
                        lemma_rejects_once(decl, body, e, e);
                    }
                    return Err(e);
                }
                t = t + 1;
            }
            i = i + 1;
        }
        proof {
            assert forall|i: int, t: int| !undeclared_at(decl, body, i, t) by {
                if 0 <= i < n {
                    assert(i < n || (i == n && t < 0));
                }
            }
        }
        Ok(FlagnumContext { decl, body, repr })
    }
}

/// Validates a declaration, where it can be validated at all: a declaration
/// without items, or with an item name twice, gets no answer.
pub fn validate(decl: FlagnumDecl, body: FlagnumEnum) -> (r: Option<Result<FlagnumContext, SpecError>>)
    ensures
        r.is_some() <==> well_posed(body),
        r matches Some(answer) ==> (answer.is_ok() <==> valid(decl, body)),
        r matches Some(Ok(ctx)) ==> ctx.decl() == decl && ctx.body() == body && ctx.wf(),
        r matches Some(Err(e)) ==> rejects(decl, body, e),
{
    if is_well_posed(&body) {
        Some(FlagnumContext::new(decl, body))
    } else {
        None
    }
}

} // verus!
