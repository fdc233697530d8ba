//! The category-to-asset-type registry.
//!
//! Each `.nspkg` category is bound to exactly one runtime asset type, and
//! each asset type to exactly one category. Registration is engine code
//! only: mod content configures data understood by an already-registered
//! category but can never register a new one. Asset types are identified by
//! their type name.

use vstd::prelude::*;

use crate::category::AssetCategory;
use crate::text::{join, owned, str_eq};

verus! {

/// A registration that would break the one-to-one binding.
#[derive(Debug, PartialEq, Eq)]
pub enum RegistrationConflict {
    /// The asset type is already bound to a different category.
    TypeAlreadyRegistered { asset_type: String, existing: AssetCategory, requested: AssetCategory },
    /// The category is already bound to a different asset type.
    CategoryAlreadyRegistered { category: AssetCategory, existing_type: String, requested_type: String },
}

/// The mathematical content of a [`RegistrationConflict`].
pub enum ConflictView {
    TypeAlreadyRegistered(Seq<char>, Seq<char>, Seq<char>),
    CategoryAlreadyRegistered(Seq<char>, Seq<char>, Seq<char>),
}

impl View for RegistrationConflict {
    type V = ConflictView;

    open spec fn view(&self) -> ConflictView {
        match self {
            RegistrationConflict::TypeAlreadyRegistered { asset_type, existing, requested } =>
                ConflictView::TypeAlreadyRegistered(asset_type@, existing@, requested@),
            RegistrationConflict::CategoryAlreadyRegistered {
                category,
                existing_type,
                requested_type,
            } => ConflictView::CategoryAlreadyRegistered(category@, existing_type@, requested_type@),
        }
    }
}

/// The category `asset_type` is bound to, if any.
pub open spec fn spec_category_for(entries: Seq<(Seq<char>, Seq<char>)>, asset_type: Seq<char>) -> Option<
    Seq<char>,
>
    decreases entries.len(),
{
    if entries.len() == 0 {
        None
    } else if entries.last().0 == asset_type {
        Some(entries.last().1)
    } else {
        spec_category_for(entries.drop_last(), asset_type)
    }
}

/// The asset type `category` is bound to, if any.
pub open spec fn spec_type_for(entries: Seq<(Seq<char>, Seq<char>)>, category: Seq<char>) -> Option<
    Seq<char>,
>
    decreases entries.len(),
{
    if entries.len() == 0 {
        None
    } else if entries.last().1 == category {
        Some(entries.last().0)
    } else {
        spec_type_for(entries.drop_last(), category)
    }
}

/// The effect of registering `asset_type` under `category`: unchanged when
/// that exact pair is already bound (re-registration is idempotent), a
/// conflict when either side is bound to something else, otherwise the new
/// binding appended.
pub open spec fn spec_register(
    entries: Seq<(Seq<char>, Seq<char>)>,
    asset_type: Seq<char>,
    category: Seq<char>,
) -> Result<Seq<(Seq<char>, Seq<char>)>, ConflictView> {
    match spec_category_for(entries, asset_type) {
        Some(existing) => if existing == category {
            Ok(entries)
        } else {
            Err(ConflictView::TypeAlreadyRegistered(asset_type, existing, category))
        },
        None => match spec_type_for(entries, category) {
            Some(other) => Err(ConflictView::CategoryAlreadyRegistered(category, other, asset_type)),
            None => Ok(entries.push((asset_type, category))),
        },
    }
}

/// The process's category table.
pub struct CategoryRegistry {
    entries: Vec<(String, AssetCategory)>,
}

impl View for CategoryRegistry {
    type V = Seq<(Seq<char>, Seq<char>)>;

    closed spec fn view(&self) -> Seq<(Seq<char>, Seq<char>)> {
        self.entries@.map_values(|e: (String, AssetCategory)| (e.0@, e.1@))
    }
}

impl CategoryRegistry {
    /// An empty registry.
    pub fn new() -> (r: Self)
        ensures
            r@ == Seq::<(Seq<char>, Seq<char>)>::empty(),
    {
        let r = CategoryRegistry { entries: Vec::new() };
        assert(r@ =~= Seq::<(Seq<char>, Seq<char>)>::empty());
        r
    }

    /// The category `asset_type` was registered under, if any.
    pub fn category_for(&self, asset_type: &str) -> (c: Option<AssetCategory>)
        ensures
            match spec_category_for(self@, asset_type@) {
                Some(k) => c matches Some(x) && x@ == k,
                None => c is None,
            },
    {
        let mut i = self.entries.len();
        assert(self@.take(i as int) =~= self@);
        while i > 0
            invariant
                i <= self.entries@.len(),
                self@.len() == self.entries@.len(),
                spec_category_for(self@, asset_type@) == spec_category_for(
                    self@.take(i as int),
                    asset_type@,
                ),
            decreases i,
        {
            let ghost prefix = self@.take(i as int);
            assert(prefix.drop_last() =~= self@.take(i - 1));
            assert(prefix.last() == self@[i - 1]);
            assert(self@[i - 1] == (self.entries@[i - 1].0@, self.entries@[i - 1].1@));
            if str_eq(self.entries[i - 1].0.as_str(), asset_type) {
                return Some(self.entries[i - 1].1.clone());
            }
            i = i - 1;
        }
        None
    }

    /// The asset type `category` was registered to, if any.
    fn type_for(&self, category: &AssetCategory) -> (t: Option<String>)
        ensures
            match spec_type_for(self@, category@) {
                Some(k) => t matches Some(x) && x@ == k,
                None => t is None,
            },
    {
        let mut i = self.entries.len();
        assert(self@.take(i as int) =~= self@);
        while i > 0
            invariant
                i <= self.entries@.len(),
                self@.len() == self.entries@.len(),
                spec_type_for(self@, category@) == spec_type_for(self@.take(i as int), category@),
            decreases i,
        {
            let ghost prefix = self@.take(i as int);
            assert(prefix.drop_last() =~= self@.take(i - 1));
            assert(prefix.last() == self@[i - 1]);
            assert(self@[i - 1] == (self.entries@[i - 1].0@, self.entries@[i - 1].1@));
            if str_eq(self.entries[i - 1].1.as_str(), category.as_str()) {
                return Some(self.entries[i - 1].0.clone());
            }
            i = i - 1;
        }
        None
    }

    /// What registering `asset_type` under `category` would break, if
    /// anything: `None` exactly when the registration is allowed (a new
    /// binding, or the same pair again).
    pub fn conflict(&self, asset_type: &str, category: &AssetCategory) -> (res: Option<
        RegistrationConflict,
    >)
        ensures
            match spec_register(self@, asset_type@, category@) {
                Ok(_) => res is None,
                Err(c) => res matches Some(e) && e@ == c,
            },
    {
        match self.category_for(asset_type) {
            Some(existing) => {
                if str_eq(existing.as_str(), category.as_str()) {
                    return None;
                }
                return Some(
                    RegistrationConflict::TypeAlreadyRegistered {
                        asset_type: owned(asset_type),
                        existing,
                        requested: category.clone(),
                    },
                );
            },
            None => {},
        }
        match self.type_for(category) {
            Some(other) => Some(
                RegistrationConflict::CategoryAlreadyRegistered {
                    category: category.clone(),
                    existing_type: other,
                    requested_type: owned(asset_type),
                },
            ),
            None => None,
        }
    }

    /// Binds `asset_type` to `category`. Registering the same pair again
    /// changes nothing. A registration that would bind either side to
    /// something else is a configuration bug the engine does not survive:
    /// callers test [`CategoryRegistry::conflict`] first.
    pub fn register(&mut self, asset_type: &str, category: AssetCategory)
        requires
            spec_register(old(self)@, asset_type@, category@) is Ok,
        ensures
            final(self)@ == spec_register(old(self)@, asset_type@, category@)->Ok_0,
    {
        match self.category_for(asset_type) {
            Some(_) => {
                return;
            },
            None => {},
        }
        self.entries.push((owned(asset_type), category));
        assert(self@ =~= old(self)@.push((asset_type@, category@)));
    }
}

impl RegistrationConflict {
    /// Human-readable description of the conflict.
    pub fn message(&self) -> (m: String)
        ensures
            m@ == conflict_text(self@),
    {
        match self {
            RegistrationConflict::TypeAlreadyRegistered { asset_type, existing, requested } => {
                let a = join(owned("asset type `"), asset_type.as_str());
                let b = join(join(a, "` is already registered under nspkg category `"), existing.as_str());
                join(join(join(b, "`, cannot also register it under `"), requested.as_str()), "`")
            },
            RegistrationConflict::CategoryAlreadyRegistered {
                category,
                existing_type,
                requested_type,
            } => {
                let a = join(owned("nspkg category `"), category.as_str());
                let b = join(join(a, "` is already registered to asset type `"), existing_type.as_str());
                let c = join(join(b, "`, cannot also register it to `"), requested_type.as_str());
                join(c, "` \u{2014} a category maps to exactly one runtime asset type")
            },
        }
    }
}

/// The human-readable description of a conflict.
pub open spec fn conflict_text(c: ConflictView) -> Seq<char> {
    match c {
        ConflictView::TypeAlreadyRegistered(t, existing, requested) => "asset type `"@ + t
            + "` is already registered under nspkg category `"@ + existing
            + "`, cannot also register it under `"@ + requested + "`"@,
        ConflictView::CategoryAlreadyRegistered(k, existing, requested) => "nspkg category `"@ + k
            + "` is already registered to asset type `"@ + existing
            + "`, cannot also register it to `"@ + requested
            + "` \u{2014} a category maps to exactly one runtime asset type"@,
    }
}

/// Registering a pair that registered successfully once more changes
/// nothing and succeeds: registration is idempotent.
pub proof fn law_registration_is_idempotent(
    entries: Seq<(Seq<char>, Seq<char>)>,
    asset_type: Seq<char>,
    category: Seq<char>,
)
    requires
        spec_register(entries, asset_type, category) is Ok,
    ensures
        spec_register(spec_register(entries, asset_type, category)->Ok_0, asset_type, category)
            == spec_register(entries, asset_type, category),
{
    let next = spec_register(entries, asset_type, category)->Ok_0;
    if spec_category_for(entries, asset_type) is None {
        assert(next.drop_last() =~= entries);
    }
}

/// After a successful registration, looking the type up gives the category
/// it was registered under.
pub proof fn law_registered_pair_is_found(
    entries: Seq<(Seq<char>, Seq<char>)>,
    asset_type: Seq<char>,
    category: Seq<char>,
)
    requires
        spec_register(entries, asset_type, category) is Ok,
    ensures
        spec_category_for(spec_register(entries, asset_type, category)->Ok_0, asset_type) == Some(
            category,
        ),
{
    let next = spec_register(entries, asset_type, category)->Ok_0;
    if spec_category_for(entries, asset_type) is None {
        assert(next.drop_last() =~= entries);
    }
}

/// True when no asset type and no category occurs in two bindings.
pub open spec fn one_to_one(entries: Seq<(Seq<char>, Seq<char>)>) -> bool {
    forall|i: int, j: int|
        0 <= i < j < entries.len() ==> (#[trigger] entries[i]).0 != (#[trigger] entries[j]).0
            && entries[i].1 != entries[j].1
}

proof fn lemma_lookups_absent(entries: Seq<(Seq<char>, Seq<char>)>, asset_type: Seq<char>, category: Seq<char>)
    ensures
        spec_category_for(entries, asset_type) is None ==> forall|i: int|
            0 <= i < entries.len() ==> (#[trigger] entries[i]).0 != asset_type,
        spec_type_for(entries, category) is None ==> forall|i: int|
            0 <= i < entries.len() ==> (#[trigger] entries[i]).1 != category,
    decreases entries.len(),
{
    if entries.len() > 0 {
        let init = entries.drop_last();
        lemma_lookups_absent(init, asset_type, category);
        if spec_category_for(entries, asset_type) is None {
            assert forall|i: int| 0 <= i < entries.len() implies (#[trigger] entries[i]).0
                != asset_type by {
                if i < entries.len() - 1 {
                    assert(entries[i] == init[i]);
                }
            }
        }
        if spec_type_for(entries, category) is None {
            assert forall|i: int| 0 <= i < entries.len() implies (#[trigger] entries[i]).1
                != category by {
                if i < entries.len() - 1 {
                    assert(entries[i] == init[i]);
                }
            }
        }
    }
}

/// Each category maps to exactly one runtime asset type and each type to
/// one category: registering keeps the table one-to-one.
pub proof fn law_registration_keeps_bindings_one_to_one(
    entries: Seq<(Seq<char>, Seq<char>)>,
    asset_type: Seq<char>,
    category: Seq<char>,
)
    requires
        one_to_one(entries),
        spec_register(entries, asset_type, category) is Ok,
    ensures
        one_to_one(spec_register(entries, asset_type, category)->Ok_0),
{
    lemma_lookups_absent(entries, asset_type, category);
    let next = spec_register(entries, asset_type, category)->Ok_0;
    if spec_category_for(entries, asset_type) is None {
        assert forall|i: int, j: int| 0 <= i < j < next.len() implies (#[trigger] next[i]).0 != (
        #[trigger] next[j]).0 && next[i].1 != next[j].1 by {
            if j == entries.len() {
                assert(next[i] == entries[i]);
            } else {
                assert(next[i] == entries[i] && next[j] == entries[j]);
            }
        }
    }
}

} // verus!