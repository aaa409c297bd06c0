//! Domains (authorization tags of keys) and selectors (queries over keys).
use vstd::prelude::*;

verus! {

/// An authorization tag that a key may carry.
#[derive(Debug, Clone, Copy, PartialEq, Eq, Hash, Structural)]
#[allow(inconsistent_fields)]
pub enum Domain {
    All,
    Guild { id: i64 },
    User { id: i32 },
    Faction { id: i32 },
}

/// The broader domain that stands in for `d` when no key carries `d`.
pub open spec fn domain_fallback(d: Domain) -> Option<Domain> {
    match d {
        Domain::Guild { .. } => Some(Domain::All),
        _ => None,
    }
}

/// A domain type whose values may name a broader domain to fall back to.
pub trait KeyDomain: Sized {
    spec fn fallback_spec(&self) -> Option<Self>;

    fn fallback(&self) -> (r: Option<Self>)
        ensures
            r == self.fallback_spec(),
    ;
}

impl KeyDomain for Domain {
    open spec fn fallback_spec(&self) -> Option<Domain> {
        domain_fallback(*self)
    }

    fn fallback(&self) -> (r: Option<Domain>) {
        match self {
            Domain::Guild { .. } => Some(Domain::All),
            _ => None,
        }
    }
}

/// A query over the key population.
#[derive(Debug, Clone, PartialEq, Eq)]
pub enum KeySelector {
    /// The key with this secret.
    Key(String),
    /// The key with this id.
    Id(i32),
    /// The keys registered by this owner.
    UserId(i32),
    /// The keys that carry every one of these domains.
    Has(Vec<Domain>),
    /// The keys that carry every domain of at least one of these sets.
    OneOf(Vec<Vec<Domain>>),
}

/// The domain sets of a list of alternatives.
pub open spec fn alternatives_view(alts: Seq<Vec<Domain>>) -> Seq<Seq<Domain>> {
    alts.map_values(|a: Vec<Domain>| a@)
}

/// The mathematical form of a selector.
pub enum SelectorView {
    Key(Seq<char>),
    Id(i32),
    UserId(i32),
    Has(Seq<Domain>),
    OneOf(Seq<Seq<Domain>>),
}

impl View for KeySelector {
    type V = SelectorView;

    open spec fn view(&self) -> SelectorView {
        match self {
            KeySelector::Key(s) => SelectorView::Key(s@),
            KeySelector::Id(i) => SelectorView::Id(*i),
            KeySelector::UserId(u) => SelectorView::UserId(*u),
            KeySelector::Has(ds) => SelectorView::Has(ds@),
            KeySelector::OneOf(alts) => SelectorView::OneOf(alternatives_view(alts@)),
        }
    }
}

/// The domains of `ds` that have a fallback, each replaced by its fallback, in order.
pub open spec fn fallback_domains(ds: Seq<Domain>) -> Seq<Domain>
    decreases ds.len(),
{
    if ds.len() == 0 {
        Seq::empty()
    } else {
        let rest = fallback_domains(ds.drop_last());
        match domain_fallback(ds.last()) {
            Some(f) => rest.push(f),
            None => rest,
        }
    }
}

/// The alternatives of `alts` mapped through `fallback_domains`, without those that vanish.
pub open spec fn fallback_alternatives(alts: Seq<Seq<Domain>>) -> Seq<Seq<Domain>>
    decreases alts.len(),
{
    if alts.len() == 0 {
        Seq::empty()
    } else {
        let rest = fallback_alternatives(alts.drop_last());
        let f = fallback_domains(alts.last());
        if f.len() == 0 {
            rest
        } else {
            rest.push(f)
        }
    }
}

/// The broader selector that stands in for `s` once no key satisfies `s`.
pub open spec fn selector_fallback(s: SelectorView) -> Option<SelectorView> {
    match s {
        SelectorView::Has(ds) => {
            let f = fallback_domains(ds);
            if f.len() == 0 {
                None
            } else {
                Some(SelectorView::Has(f))
            }
        },
        SelectorView::OneOf(alts) => {
            let f = fallback_alternatives(alts);
            if f.len() == 0 {
                None
            } else {
                Some(SelectorView::OneOf(f))
            }
        },
        _ => None,
    }
}

/// Every fallback is `All`: the domains form chains of at most one step.
proof fn lemma_fallback_domains_are_all(ds: Seq<Domain>)
    ensures
        forall|i: int|
            0 <= i < fallback_domains(ds).len() ==> #[trigger] fallback_domains(ds)[i]
                == Domain::All,
    decreases ds.len(),
{
    if ds.len() > 0 {
        lemma_fallback_domains_are_all(ds.drop_last());
    }
}

proof fn lemma_fallback_of_all(ds: Seq<Domain>)
    requires
        forall|i: int| 0 <= i < ds.len() ==> #[trigger] ds[i] == Domain::All,
    ensures
        fallback_domains(ds).len() == 0,
    decreases ds.len(),
{
    if ds.len() > 0 {
        lemma_fallback_of_all(ds.drop_last());
    }
}

proof fn lemma_fallback_alternatives_shape(alts: Seq<Seq<Domain>>)
    ensures
        forall|a: int|
            0 <= a < fallback_alternatives(alts).len() ==> (forall|i: int|
                0 <= i < #[trigger] fallback_alternatives(alts)[a].len() ==> fallback_alternatives(
                    alts,
                )[a][i] == Domain::All),
    decreases alts.len(),
{
    if alts.len() > 0 {
        lemma_fallback_alternatives_shape(alts.drop_last());
        lemma_fallback_domains_are_all(alts.last());
    }
}

proof fn lemma_fallback_alternatives_of_all(alts: Seq<Seq<Domain>>)
    requires
        forall|a: int, i: int|
            0 <= a < alts.len() && 0 <= i < alts[a].len() ==> #[trigger] alts[a][i] == Domain::All,
    ensures
        fallback_alternatives(alts).len() == 0,
    decreases alts.len(),
{
    if alts.len() > 0 {
        let last = alts.last();
        assert forall|i: int| 0 <= i < last.len() implies #[trigger] last[i] == Domain::All by {
            assert(alts[alts.len() - 1][i] == Domain::All);
        }
        lemma_fallback_of_all(last);
        lemma_fallback_alternatives_of_all(alts.drop_last());
    }
}

/// 1 for a selector that has a fallback, else 0.
pub open spec fn selector_rank(s: SelectorView) -> nat {
    if selector_fallback(s) is Some {
        1
    } else {
        0
    }
}

/// A fallback has no fallback of its own, so falling back ends after one step.
pub proof fn lemma_fallback_is_final(s: SelectorView)
    ensures
        selector_fallback(s) matches Some(f) ==> selector_fallback(f) is None,
{
    match s {
        SelectorView::Has(ds) => {
            lemma_fallback_domains_are_all(ds);
            lemma_fallback_of_all(fallback_domains(ds));
        },
        SelectorView::OneOf(alts) => {
            let f = fallback_alternatives(alts);
            lemma_fallback_alternatives_shape(alts);
            assert forall|a: int, i: int|
                0 <= a < f.len() && 0 <= i < f[a].len() implies #[trigger] f[a][i]
                == Domain::All by {
                assert(0 <= i < f[a].len());
            }
            lemma_fallback_alternatives_of_all(f);
        },
        _ => {},
    }
}

fn fallback_domain_vec(ds: &Vec<Domain>) -> (r: Vec<Domain>)
    ensures
        r@ == fallback_domains(ds@),
{
    let mut r: Vec<Domain> = Vec::new();
    let mut i: usize = 0;
    while i < ds.len()
        invariant
            i <= ds@.len(),
            r@ == fallback_domains(ds@.subrange(0, i as int)),
        decreases ds.len() - i,
    {
        proof {
            assert(ds@.subrange(0, i + 1).drop_last() == ds@.subrange(0, i as int));
        }
        match ds[i].fallback() {
            Some(f) => r.push(f),
            None => {},
        }
        i = i + 1;
    }
    proof {
        assert(ds@.subrange(0, ds@.len() as int) == ds@);
    }
    r
}

impl KeySelector {
    /// The selector to try once no key satisfies this one: every domain
    /// replaced by its fallback. Lookups by identity have none.
    pub fn fallback(&self) -> (r: Option<KeySelector>)
        ensures
            r matches Some(f) ==> selector_fallback(self@) == Some(f@),
            r is None ==> selector_fallback(self@) is None,
    {
        match self {
            KeySelector::Key(_) | KeySelector::Id(_) | KeySelector::UserId(_) => None,
            KeySelector::Has(ds) => {
                let f = fallback_domain_vec(ds);
                if f.len() == 0 {
                    None
                } else {
                    Some(KeySelector::Has(f))
                }
            },
            KeySelector::OneOf(alts) => {
                let mut r: Vec<Vec<Domain>> = Vec::new();
                let mut i: usize = 0;
                while i < alts.len()
                    invariant
                        i <= alts@.len(),
                        r@.map_values(|a: Vec<Domain>| a@) == fallback_alternatives(
                            alternatives_view(alts@).subrange(0, i as int),
                        ),
                    decreases alts.len() - i,
                {
                    let ghost all = alternatives_view(alts@);
                    let ghost prev = r@;
                    proof {
                        assert(all.subrange(0, i + 1).drop_last() == all.subrange(0, i as int));
                    }
                    let f = fallback_domain_vec(&alts[i]);
                    if f.len() > 0 {
                        r.push(f);
                        proof {
                            assert(r@.map_values(|a: Vec<Domain>| a@) == prev.map_values(
                                |a: Vec<Domain>| a@,
                            ).push(f@));
                        }
                    }
                    i = i + 1;
                }
                proof {
                    let all = alternatives_view(alts@);
                    assert(all.subrange(0, all.len() as int) == all);
                }
                if r.len() == 0 {
                    None
                } else {
                    Some(KeySelector::OneOf(r))
                }
            },
        }
    }
}

} // verus!

verus! {

/// A copy of a list of domain sets.
fn copy_alternatives(alts: &Vec<Vec<Domain>>) -> (r: Vec<Vec<Domain>>)
    ensures
        alternatives_view(r@) == alternatives_view(alts@),
{
    let mut r: Vec<Vec<Domain>> = Vec::new();
    let mut i: usize = 0;
    while i < alts.len()
        invariant
            i <= alts@.len(),
            alternatives_view(r@) == alternatives_view(alts@).subrange(0, i as int),
        decreases alts.len() - i,
    {
        let ghost prev = r@;
        let mut ds: Vec<Domain> = Vec::new();
        let mut j: usize = 0;
        while j < alts[i].len()
            invariant
                i < alts@.len(),
                j <= alts@[i as int]@.len(),
                ds@ == alts@[i as int]@.subrange(0, j as int),
            decreases alts[i as int]@.len() - j,
        {
            ds.push(alts[i][j]);
            j = j + 1;
        }
        assert(alts@[i as int]@.subrange(0, alts@[i as int]@.len() as int) == alts@[i as int]@);
        r.push(ds);
        proof {
            assert(alternatives_view(r@) =~= alternatives_view(prev).push(alts@[i as int]@));
            assert(alternatives_view(alts@).subrange(0, i + 1) =~= alternatives_view(alts@).subrange(
                0,
                i as int,
            ).push(alts@[i as int]@));
        }
        i = i + 1;
    }
    proof {
        assert(alternatives_view(alts@).subrange(0, alts@.len() as int) == alternatives_view(alts@));
    }
    r
}

impl KeySelector {
    /// A copy of the selector.
    pub fn duplicate(&self) -> (r: KeySelector)
        ensures
            r@ == self@,
    {
        match self {
            KeySelector::Key(s) => KeySelector::Key(s.clone()),
            KeySelector::Id(i) => KeySelector::Id(*i),
            KeySelector::UserId(u) => KeySelector::UserId(*u),
            KeySelector::Has(ds) => {
                let mut r: Vec<Domain> = Vec::new();
                let mut i: usize = 0;
                while i < ds.len()
                    invariant
                        i <= ds@.len(),
                        r@ == ds@.subrange(0, i as int),
                    decreases ds.len() - i,
                {
                    r.push(ds[i]);
                    i = i + 1;
                }
                assert(ds@.subrange(0, ds@.len() as int) == ds@);
                KeySelector::Has(r)
            },
            KeySelector::OneOf(alts) => KeySelector::OneOf(copy_alternatives(alts)),
        }
    }
}

} // verus!

verus! {

/// A value that names the keys it asks for.
pub trait IntoSelector: Sized {
    spec fn spec_selector(&self) -> SelectorView;

    fn into_selector(self) -> (r: KeySelector)
        ensures
            r@ == self.spec_selector(),
    ;
}

impl IntoSelector for KeySelector {
    open spec fn spec_selector(&self) -> SelectorView {
        self@
    }

    fn into_selector(self) -> (r: KeySelector) {
        self
    }
}

/// A single domain asks for the keys that carry it.
impl IntoSelector for Domain {
    open spec fn spec_selector(&self) -> SelectorView {
        SelectorView::Has(seq![*self])
    }

    fn into_selector(self) -> (r: KeySelector) {
        let v = vec![self];
        assert(v@ =~= seq![self]);
        KeySelector::Has(v)
    }
}

/// A list of domains asks for the keys that carry all of them.
impl IntoSelector for Vec<Domain> {
    open spec fn spec_selector(&self) -> SelectorView {
        SelectorView::Has(self@)
    }

    fn into_selector(self) -> (r: KeySelector) {
        KeySelector::Has(self)
    }
}

/// A secret asks for the key that holds it.
impl IntoSelector for String {
    open spec fn spec_selector(&self) -> SelectorView {
        SelectorView::Key(self@)
    }

    fn into_selector(self) -> (r: KeySelector) {
        KeySelector::Key(self)
    }
}

} // verus!
