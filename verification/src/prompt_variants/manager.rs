//! Prompt variants and the provider that keeps them.

pub mod mod_rs;

use vstd::prelude::*;
use vstd::hash_map::StringHashMap;
use crate::clock::Timestamp;
use crate::error::KbError;
use crate::ident::{random_id, RANDOM_ID_LEN};
use crate::json::{JsonModel, JsonObject};
use crate::text::{clone_optional_text, distinct, str_eq};

verus! {

/// One wording of a prompt of some type.
#[derive(Debug)]
pub struct PromptVariant {
    pub variant_id: String,
    /// The type of prompt that this is a variant of, such as
    /// "SystemPrompt_Main".
    pub prompt_type_key: String,
    pub template_text: String,
    pub description: Option<String>,
    pub version: u32,
    pub author_id: Option<String>,
    pub creation_date: Timestamp,
    pub last_used_date: Option<Timestamp>,
    /// What was measured of the variant: a number under each name, such as
    /// "success_rate" or "execution_count".
    pub performance_metrics: JsonObject,
    /// The group of an experiment that the variant is in, such as "control".
    pub experiment_group: Option<String>,
    /// Whether the variant may be picked.
    pub is_active: bool,
    /// Since when the variant is no longer recommended.
    pub deprecation_date: Option<Timestamp>,
}

impl PromptVariant {
    /// Whether two variants say the same: every field equal, the metrics name
    /// by name.
    pub open spec fn same(&self, other: &PromptVariant) -> bool {
        &&& self.variant_id == other.variant_id
        &&& self.prompt_type_key == other.prompt_type_key
        &&& self.template_text == other.template_text
        &&& self.description == other.description
        &&& self.version == other.version
        &&& self.author_id == other.author_id
        &&& self.creation_date == other.creation_date
        &&& self.last_used_date == other.last_used_date
        &&& self.performance_metrics@ == other.performance_metrics@
        &&& self.experiment_group == other.experiment_group
        &&& self.is_active == other.is_active
        &&& self.deprecation_date == other.deprecation_date
    }

    /// Whether the variant may be picked for its type: active and not
    /// deprecated.
    pub open spec fn selectable(&self) -> bool {
        self.is_active && self.deprecation_date is None
    }

    /// Whether the variant may be picked for its type.
    pub fn is_selectable(&self) -> (r: bool)
        ensures
            r == self.selectable(),
    {
        self.is_active && self.deprecation_date.is_none()
    }

    /// A variant written at `now` under `variant_id`: version 1, active, never
    /// used, without metrics.
    pub fn new_at(
        variant_id: String,
        prompt_type_key: String,
        template_text: String,
        author_id: Option<String>,
        now: Timestamp,
    ) -> (r: PromptVariant)
        ensures
            r.variant_id == variant_id,
            r.prompt_type_key == prompt_type_key,
            r.template_text == template_text,
            r.description is None,
            r.version == 1,
            r.author_id == author_id,
            r.creation_date == now,
            r.last_used_date is None,
            r.performance_metrics@ == Map::<Seq<char>, JsonModel>::empty(),
            r.experiment_group is None,
            r.is_active,
            r.deprecation_date is None,
    {
        PromptVariant {
            variant_id,
            prompt_type_key,
            template_text,
            description: None,
            version: 1,
            author_id,
            creation_date: now,
            last_used_date: None,
            performance_metrics: JsonObject::new(),
            experiment_group: None,
            is_active: true,
            deprecation_date: None,
        }
    }

    /// A variant written now, under a random identity. Whatever the clock and
    /// the random source give, the rest is as in [`PromptVariant::new_at`].
    pub fn new(prompt_type_key: String, template_text: String, author_id: Option<String>) -> (r:
        PromptVariant)
        ensures
            r.variant_id@.len() == RANDOM_ID_LEN,
            r.prompt_type_key == prompt_type_key,
            r.template_text == template_text,
            r.description is None,
            r.version == 1,
            r.author_id == author_id,
            r.last_used_date is None,
            r.performance_metrics@ == Map::<Seq<char>, JsonModel>::empty(),
            r.experiment_group is None,
            r.is_active,
            r.deprecation_date is None,
    {
        PromptVariant::new_at(
            random_id(),
            prompt_type_key,
            template_text,
            author_id,
            Timestamp::now(),
        )
    }
}

impl Clone for PromptVariant {
    /// A copy that says the same.
    fn clone(&self) -> (r: PromptVariant)
        ensures
            r.same(self),
    {
        PromptVariant {
            variant_id: self.variant_id.clone(),
            prompt_type_key: self.prompt_type_key.clone(),
            template_text: self.template_text.clone(),
            description: clone_optional_text(&self.description),
            version: self.version,
            author_id: clone_optional_text(&self.author_id),
            creation_date: self.creation_date,
            last_used_date: self.last_used_date,
            performance_metrics: self.performance_metrics.clone(),
            experiment_group: clone_optional_text(&self.experiment_group),
            is_active: self.is_active,
            deprecation_date: self.deprecation_date,
        }
    }
}

/// Whether every variant of `found` is a copy of the variant that the table
/// keeps under its identity, and no identity occurs twice.
pub open spec fn copies_of(found: Seq<PromptVariant>, table: Map<Seq<char>, PromptVariant>) -> bool {
    &&& forall|i: int|
        0 <= i < found.len() ==> table.contains_key((#[trigger] found[i]).variant_id@)
            && found[i].same(&table[found[i].variant_id@])
    &&& forall|i: int, j: int|
        0 <= i < j < found.len() ==> found[i].variant_id@ != found[j].variant_id@
}

/// Whether an identity is among those of `found`.
pub open spec fn names(found: Seq<PromptVariant>, id: Seq<char>) -> bool {
    exists|i: int| 0 <= i < found.len() && found[i].variant_id@ == id
}

/// Whether a listing of a type shows the variant.
pub open spec fn listed(variant: PromptVariant, prompt_type_key: Seq<char>, include_inactive: bool) -> bool {
    variant.prompt_type_key@ == prompt_type_key && (include_inactive || variant.selectable())
}

/// Whether `picked` is what a pick for a type returns: nothing where no
/// variant of the type may be picked, and else a copy of one that no other
/// exceeds in version.
pub open spec fn pick_answer(
    table: Map<Seq<char>, PromptVariant>,
    prompt_type_key: Seq<char>,
    picked: Option<PromptVariant>,
) -> bool {
    match picked {
        Some(variant) => {
            &&& table.contains_key(variant.variant_id@)
            &&& variant.same(&table[variant.variant_id@])
            &&& listed(variant, prompt_type_key, false)
            &&& forall|id: Seq<char>|
                table.contains_key(id) && listed(#[trigger] table[id], prompt_type_key, false)
                    ==> table[id].version <= variant.version
        },
        None => forall|id: Seq<char>|
            table.contains_key(id) ==> !listed(#[trigger] table[id], prompt_type_key, false),
    }
}

/// Whether `found` is what a listing of a type returns: copies of exactly the
/// variants that the listing shows.
pub open spec fn list_answer(
    table: Map<Seq<char>, PromptVariant>,
    prompt_type_key: Seq<char>,
    include_inactive: bool,
    found: Seq<PromptVariant>,
) -> bool {
    &&& copies_of(found, table)
    &&& forall|i: int|
        0 <= i < found.len() ==> listed(#[trigger] found[i], prompt_type_key, include_inactive)
    &&& forall|id: Seq<char>|
        table.contains_key(id) && listed(table[id], prompt_type_key, include_inactive) ==> names(
            found,
            id,
        )
}

/// The table after new metrics came in for a variant at time `now`: the
/// metrics are merged name by name, and the variant was last used at `now`.
pub open spec fn with_metrics(
    table: Map<Seq<char>, PromptVariant>,
    variant_id: Seq<char>,
    metrics_update: Map<Seq<char>, JsonModel>,
    now: Timestamp,
    after: Map<Seq<char>, PromptVariant>,
) -> bool {
    let before = table[variant_id];
    &&& after.dom() == table.dom()
    &&& forall|id: Seq<char>|
        id != variant_id && table.contains_key(id) ==> #[trigger] after[id] == table[id]
    &&& after[variant_id].performance_metrics@ == before.performance_metrics@.union_prefer_right(
        metrics_update,
    )
    &&& after[variant_id].last_used_date == Some(now)
    &&& after[variant_id].variant_id == before.variant_id
    &&& after[variant_id].prompt_type_key == before.prompt_type_key
    &&& after[variant_id].template_text == before.template_text
    &&& after[variant_id].description == before.description
    &&& after[variant_id].version == before.version
    &&& after[variant_id].author_id == before.author_id
    &&& after[variant_id].creation_date == before.creation_date
    &&& after[variant_id].experiment_group == before.experiment_group
    &&& after[variant_id].is_active == before.is_active
    &&& after[variant_id].deprecation_date == before.deprecation_date
}

/// What a keeper of prompt variants offers, whatever keeps the data.
pub trait PromptVariantProvider {
    /// The variants under their identities.
    spec fn variants(&self) -> Map<Seq<char>, PromptVariant>;

    /// The provider's own validity.
    spec fn well_formed(&self) -> bool;

    /// The variant to use for a type of prompt: of those that may be picked,
    /// one of the highest version.
    fn get_active_variant(&self, prompt_type_key: &str) -> (r: Result<
        Option<PromptVariant>,
        KbError,
    >)
        requires
            self.well_formed(),
        ensures
            r matches Ok(picked) ==> pick_answer(self.variants(), prompt_type_key@, picked),
    ;

    /// The variant under `variant_id`, if there is one.
    fn get_variant_by_id(&self, variant_id: &str) -> (r: Result<Option<PromptVariant>, KbError>)
        requires
            self.well_formed(),
        ensures
            r matches Ok(Some(variant)) ==> self.variants().contains_key(variant_id@)
                && variant.same(&self.variants()[variant_id@]),
            r matches Ok(None) ==> !self.variants().contains_key(variant_id@),
    ;

    /// Keeps a copy of a variant under its identity, in the place of any
    /// earlier one.
    fn store_variant(&mut self, variant: &PromptVariant) -> (r: Result<(), KbError>)
        requires
            old(self).well_formed(),
        ensures
            final(self).well_formed(),
            r is Ok ==> {
                &&& final(self).variants().dom() == old(self).variants().dom().insert(
                    variant.variant_id@,
                )
                &&& final(self).variants()[variant.variant_id@].same(variant)
                &&& forall|id: Seq<char>|
                    id != variant.variant_id@ && old(self).variants().contains_key(id)
                        ==> #[trigger] final(self).variants()[id] == old(self).variants()[id]
            },
            r is Err ==> final(self).variants() == old(self).variants(),
    ;

    /// Takes new metrics for a variant: each replaces the one of its name, and
    /// the variant counts as used at the time that the clock gives. It succeeds
    /// exactly where the variant is kept; else it is `NotFound`, and then
    /// nothing changes.
    fn update_variant_metrics(&mut self, variant_id: &str, metrics_update: JsonObject) -> (r:
        Result<(), KbError>)
        requires
            old(self).well_formed(),
        ensures
            final(self).well_formed(),
            !old(self).variants().contains_key(variant_id@) ==> r == Err::<(), KbError>(
                KbError::NotFound,
            ),
            old(self).variants().contains_key(variant_id@) ==> r is Ok,
            r is Ok ==> old(self).variants().contains_key(variant_id@) && exists|now: Timestamp|
                with_metrics(
                    old(self).variants(),
                    variant_id@,
                    metrics_update@,
                    now,
                    #[trigger] final(self).variants(),
                ),
            r is Err ==> final(self).variants() == old(self).variants(),
    ;

    /// The variants of a type of prompt: all of them, or only those that may
    /// be picked.
    fn list_variants_for_type(&self, prompt_type_key: &str, include_inactive: bool) -> (r: Result<
        Vec<PromptVariant>,
        KbError,
    >)
        requires
            self.well_formed(),
        ensures
            r matches Ok(found) ==> list_answer(
                self.variants(),
                prompt_type_key@,
                include_inactive,
                found@,
            ),
    ;
}

/// A provider that keeps the variants in memory.
pub struct InMemoryPromptVariantProvider {
    variants: StringHashMap<PromptVariant>,
    /// The identities of the variants, in the order in which they first came.
    ids: Vec<String>,
}

impl InMemoryPromptVariantProvider {
    /// The table of variants.
    pub closed spec fn table(&self) -> Map<Seq<char>, PromptVariant> {
        self.variants@
    }

    /// The list of identities names exactly the variants, each once.
    pub closed spec fn ids_exact(&self) -> bool {
        &&& distinct(self.ids.deep_view())
        &&& forall|id: Seq<char>|
            self.variants@.contains_key(id) <==> self.ids.deep_view().contains(id)
    }

    /// A provider without variants.
    pub fn new() -> (r: InMemoryPromptVariantProvider)
        ensures
            r.well_formed(),
            r.variants() == Map::<Seq<char>, PromptVariant>::empty(),
    {
        InMemoryPromptVariantProvider { variants: StringHashMap::new(), ids: Vec::new() }
    }

    /// Takes new metrics for a variant at time `now`.
    pub fn update_variant_metrics_at(
        &mut self,
        variant_id: &str,
        metrics_update: JsonObject,
        now: Timestamp,
    ) -> (r: Result<(), KbError>)
        requires
            old(self).well_formed(),
        ensures
            final(self).well_formed(),
            old(self).variants().contains_key(variant_id@) ==> r is Ok && with_metrics(
                old(self).variants(),
                variant_id@,
                metrics_update@,
                now,
                final(self).variants(),
            ),
            !old(self).variants().contains_key(variant_id@) ==> r == Err::<(), KbError>(
                KbError::NotFound,
            ) && final(self).variants() == old(self).variants(),
    {
        let updated = match self.variants.get(variant_id) {
            Some(variant) => {
                assert(self.table().contains_key(variant_id@));
                assert(variant.variant_id@ == variant_id@);
                let mut copy = variant.clone();
                copy.performance_metrics.merge(&metrics_update);
                copy.last_used_date = Some(now);
                copy
            },
            None => {
                return Err(KbError::NotFound);
            },
        };
        let ghost t0 = self.variants@;
        let ghost l = self.ids.deep_view();
        let ghost id = variant_id@;
        assert(updated.variant_id@ == id);
        self.variants.insert(updated.variant_id.clone(), updated);
        proof {
            let t1 = self.variants@;
            assert(t1.dom() =~= t0.dom());
            assert forall|s: Seq<char>| t1.contains_key(s) <==> l.contains(s) by {}
            assert forall|s: Seq<char>| #[trigger]
                self.table().contains_key(s) implies self.table()[s].variant_id@ == s by {
                if s != id {
                    assert(old(self).table().contains_key(s));
                }
            }
        }
        Ok(())
    }
}

impl Default for InMemoryPromptVariantProvider {
    fn default() -> (r: InMemoryPromptVariantProvider)
        ensures
            r.well_formed(),
            r.variants() == Map::<Seq<char>, PromptVariant>::empty(),
    {
        InMemoryPromptVariantProvider::new()
    }
}

impl PromptVariantProvider for InMemoryPromptVariantProvider {
    open spec fn variants(&self) -> Map<Seq<char>, PromptVariant> {
        self.table()
    }

    open spec fn well_formed(&self) -> bool {
        &&& self.ids_exact()
        &&& forall|id: Seq<char>| #[trigger]
            self.table().contains_key(id) ==> self.table()[id].variant_id@ == id
    }

    /// The variant to use for a type. It never fails.
    fn get_active_variant(&self, prompt_type_key: &str) -> (r: Result<
        Option<PromptVariant>,
        KbError,
    >)
        ensures
            r is Ok,
    {
        let ghost table = self.table();
        let ghost order = self.ids.deep_view();
        let ghost key = prompt_type_key@;
        let mut best: Option<usize> = None;
        let mut best_version: u32 = 0;
        let mut i: usize = 0;
        while i < self.ids.len()
            invariant
                i <= self.ids@.len(),
                self.well_formed(),
                table == self.table(),
                order == self.ids.deep_view(),
                key == prompt_type_key@,
                match best {
                    Some(b) => b < i && listed(table[order[b as int]], key, false)
                        && table[order[b as int]].version == best_version,
                    None => true,
                },
                forall|j: int|
                    0 <= j < i && listed(table[#[trigger] order[j]], key, false) ==> best is Some
                        && table[order[j]].version <= best_version,
            decreases self.ids@.len() - i,
        {
            proof {
                assert(order.contains(order[i as int]));
            }
            match self.variants.get(self.ids[i].as_str()) {
                Some(variant) => {
                    if str_eq(variant.prompt_type_key.as_str(), prompt_type_key)
                        && variant.is_selectable() {
                        if best.is_none() || variant.version >= best_version {
                            best = Some(i);
                            best_version = variant.version;
                        }
                    }
                },
                None => {},
            }
            i += 1;
        }
        match best {
            Some(b) => {
                proof {
                    assert(order.contains(order[b as int]));
                }
                match self.variants.get(self.ids[b].as_str()) {
                    Some(variant) => {
                        let picked = variant.clone();
                        proof {
                            assert forall|id: Seq<char>|
                                table.contains_key(id) && listed(
                                    #[trigger] table[id],
                                    key,
                                    false,
                                ) implies table[id].version <= picked.version by {
                                assert(order.contains(id));
                                let j = choose|j: int| 0 <= j < order.len() && order[j] == id;
                                assert(table[order[j]].version <= best_version);
                            }
                        }
                        Ok(Some(picked))
                    },
                    None => Ok(None),
                }
            },
            None => {
                proof {
                    assert forall|id: Seq<char>| table.contains_key(id) implies !listed(
                        #[trigger] table[id],
                        key,
                        false,
                    ) by {
                        assert(order.contains(id));
                        let j = choose|j: int| 0 <= j < order.len() && order[j] == id;
                        assert(order[j] == id);
                    }
                }
                Ok(None)
            },
        }
    }

    /// The variant under `variant_id`. It never fails.
    fn get_variant_by_id(&self, variant_id: &str) -> (r: Result<Option<PromptVariant>, KbError>)
        ensures
            r is Ok,
    {
        match self.variants.get(variant_id) {
            Some(variant) => Ok(Some(variant.clone())),
            None => Ok(None),
        }
    }

    /// Keeps a copy of a variant. It never fails.
    fn store_variant(&mut self, variant: &PromptVariant) -> (r: Result<(), KbError>)
        ensures
            r is Ok,
    {
        let ghost id = variant.variant_id@;
        let ghost l0 = self.ids.deep_view();
        if !self.variants.contains_key(variant.variant_id.as_str()) {
            self.ids.push(variant.variant_id.clone());
            proof {
                let l1 = self.ids.deep_view();
                assert(l1 =~= l0.push(id));
                assert forall|a: int, b: int| 0 <= a < b < l1.len() implies l1[a] != l1[b] by {
                    if b == l0.len() {
                        assert(l0.contains(l0[a]));
                    } else {
                        assert(l0[a] != l0[b]);
                    }
                }
                assert forall|s: Seq<char>| l1.contains(s) <==> l0.contains(s) || s == id by {
                    if l0.contains(s) {
                        let j = choose|j: int| 0 <= j < l0.len() && l0[j] == s;
                        assert(l1[j] == s);
                    }
                    if s == id {
                        assert(l1[l0.len() as int] == s);
                    }
                    if l1.contains(s) {
                        let j = choose|j: int| 0 <= j < l1.len() && l1[j] == s;
                        if j < l0.len() {
                            assert(l0[j] == s);
                        }
                    }
                }
            }
        }
        let ghost l1 = self.ids.deep_view();
        let ghost t0 = self.variants@;
        assert(forall|s: Seq<char>| l1.contains(s) <==> t0.contains_key(s) || s == id);
        self.variants.insert(variant.variant_id.clone(), variant.clone());
        proof {
            let t1 = self.variants@;
            assert forall|s: Seq<char>| t1.contains_key(s) <==> l1.contains(s) by {}
            assert(t1.dom() =~= t0.dom().insert(id));
            assert forall|s: Seq<char>| #[trigger]
                self.table().contains_key(s) implies self.table()[s].variant_id@ == s by {
                if s != id {
                    assert(old(self).table().contains_key(s));
                }
            }
        }
        Ok(())
    }

    fn update_variant_metrics(&mut self, variant_id: &str, metrics_update: JsonObject) -> (r:
        Result<(), KbError>) {
        let now = Timestamp::now();
        let ghost update = metrics_update@;
        let r = self.update_variant_metrics_at(variant_id, metrics_update, now);
        proof {
            if r is Ok {
                assert(with_metrics(old(self).variants(), variant_id@, update, now, self.variants()));
            }
        }
        r
    }

    /// The variants of a type. It never fails.
    fn list_variants_for_type(&self, prompt_type_key: &str, include_inactive: bool) -> (r: Result<
        Vec<PromptVariant>,
        KbError,
    >)
        ensures
            r is Ok,
    {
        let ghost table = self.table();
        let ghost order = self.ids.deep_view();
        let ghost key = prompt_type_key@;
        let mut found: Vec<PromptVariant> = Vec::new();
        let mut i: usize = 0;
        while i < self.ids.len()
            invariant
                i <= self.ids@.len(),
                self.well_formed(),
                table == self.table(),
                order == self.ids.deep_view(),
                key == prompt_type_key@,
                copies_of(found@, table),
                forall|k: int|
                    0 <= k < found@.len() ==> listed(#[trigger] found@[k], key, include_inactive)
                        && exists|j: int| 0 <= j < i && order[j] == found@[k].variant_id@,
                forall|j: int|
                    0 <= j < i && listed(table[order[j]], key, include_inactive) ==> names(
                        found@,
                        #[trigger] order[j],
                    ),
            decreases self.ids@.len() - i,
        {
            let ghost id = order[i as int];
            let ghost prev = found@;
            proof {
                assert(order.contains(id));
                assert(table.contains_key(id));
            }
            match self.variants.get(self.ids[i].as_str()) {
                Some(variant) => {
                    if str_eq(variant.prompt_type_key.as_str(), prompt_type_key) && (
                    include_inactive || variant.is_selectable()) {
                        let copy = variant.clone();
                        found.push(copy);
                        proof {
                            let next = found@;
                            let last = prev.len() as int;
                            assert(next[last].variant_id@ == id);
                            assert forall|k: int| 0 <= k < next.len() implies ({
                                &&& table.contains_key((#[trigger] next[k]).variant_id@)
                                &&& next[k].same(&table[next[k].variant_id@])
                                &&& listed(next[k], key, include_inactive)
                                &&& exists|j: int| 0 <= j < i + 1 && order[j] == next[k].variant_id@
                            }) by {
                                if k < last {
                                    assert(next[k] == prev[k]);
                                    let j = choose|j: int|
                                        0 <= j < i && order[j] == prev[k].variant_id@;
                                    assert(0 <= j < i + 1 && order[j] == next[k].variant_id@);
                                } else {
                                    assert(0 <= i < i + 1 && order[i as int]
                                        == next[k].variant_id@);
                                }
                            }
                            assert forall|a: int, b: int|
                                0 <= a < b < next.len() implies next[a].variant_id@
                                != next[b].variant_id@ by {
                                assert(next[a] == prev[a]);
                                if b == last {
                                    let j = choose|j: int|
                                        0 <= j < i && order[j] == prev[a].variant_id@;
                                    assert(order[j] != order[i as int]);
                                } else {
                                    assert(next[b] == prev[b]);
                                }
                            }
                            assert forall|j: int|
                                0 <= j < i + 1 && listed(
                                    table[order[j]],
                                    key,
                                    include_inactive,
                                ) implies names(next, #[trigger] order[j]) by {
                                if j < i {
                                    assert(names(prev, order[j]));
                                    let k = choose|k: int|
                                        0 <= k < prev.len() && prev[k].variant_id@ == order[j];
                                    assert(next[k] == prev[k]);
                                } else {
                                    assert(next[last].variant_id@ == order[j]);
                                }
                            }
                        }
                    }
                },
                None => {},
            }
            i += 1;
        }
        proof {
            assert forall|id: Seq<char>|
                table.contains_key(id) && listed(table[id], key, include_inactive) implies names(
                found@,
                id,
            ) by {
                assert(order.contains(id));
                let j = choose|j: int| 0 <= j < order.len() && order[j] == id;
                assert(names(found@, order[j]));
            }
        }
        Ok(found)
    }
}

} // verus!
