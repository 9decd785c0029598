//! The recipes that are at hand, by provider.

use crate::error::GetapiError;
use crate::recipe::types::Recipe;
use crate::text::{
    chars_eq, chars_of, contains_text, find, lemma_lex_total, lemma_lex_transitive, less,
    lex_less, lowercase, str_eq, to_lowercase,
};
use vstd::prelude::*;

verus! {

/// `sorted` with `r` in it: in the place of the recipe with the same id where
/// there is one among the trailing recipes that do not come before `r`, else
/// before the trailing run of recipes whose ids come after the id of `r`.
pub open spec fn upserted(sorted: Seq<Recipe>, r: Recipe) -> Seq<Recipe>
    decreases sorted.len(),
{
    if sorted.len() == 0 {
        seq![r]
    } else if sorted.last().id@ == r.id@ {
        sorted.drop_last().push(r)
    } else if lex_less(r.id@, sorted.last().id@) {
        upserted(sorted.drop_last(), r).push(sorted.last())
    } else {
        sorted.push(r)
    }
}

/// `acc` with the recipes of `more` put into it, one after the other.
pub open spec fn merged_into(acc: Seq<Recipe>, more: Seq<Recipe>) -> Seq<Recipe>
    decreases more.len(),
{
    if more.len() == 0 {
        acc
    } else {
        upserted(merged_into(acc, more.drop_last()), more.last())
    }
}

/// The recipes of `base` and `overlay` in the order of their ids, one for
/// each id: the last of `overlay` with that id, or else the last of `base`.
pub open spec fn merged(base: Seq<Recipe>, overlay: Seq<Recipe>) -> Seq<Recipe> {
    merged_into(merged_into(Seq::empty(), base), overlay)
}

/// The ids ascend strictly, so no id occurs twice.
pub open spec fn ascending(recipes: Seq<Recipe>) -> bool {
    forall|i: int, j: int| 0 <= i < j < recipes.len() ==> lex_less(recipes[i].id@, recipes[j].id@)
}

/// Whether a recipe has `q` in its id, its name, its description or one of
/// its categories, in lower case.
pub open spec fn matches_query(r: Recipe, q: Seq<char>) -> bool {
    ||| contains_text(lowercase(r.id@), q)
    ||| contains_text(lowercase(r.display_name@), q)
    ||| contains_text(lowercase(r.description@), q)
    ||| exists|k: int| 0 <= k < r.category@.len() && contains_text(lowercase(r.category@[k]@), q)
}

/// Whether one of the categories of a recipe is `cat` in lower case.
pub open spec fn in_category(r: Recipe, cat: Seq<char>) -> bool {
    exists|k: int| 0 <= k < r.category@.len() && lowercase(r.category@[k]@) == cat
}

/// The recipes that match the query `q`, in their order.
pub open spec fn found_by_query(recipes: Seq<Recipe>, q: Seq<char>) -> Seq<Recipe>
    decreases recipes.len(),
{
    if recipes.len() == 0 {
        Seq::empty()
    } else if matches_query(recipes.last(), q) {
        found_by_query(recipes.drop_last(), q).push(recipes.last())
    } else {
        found_by_query(recipes.drop_last(), q)
    }
}

/// The recipes of the category `cat`, in their order.
pub open spec fn found_in_category(recipes: Seq<Recipe>, cat: Seq<char>) -> Seq<Recipe>
    decreases recipes.len(),
{
    if recipes.len() == 0 {
        Seq::empty()
    } else if in_category(recipes.last(), cat) {
        found_in_category(recipes.drop_last(), cat).push(recipes.last())
    } else {
        found_in_category(recipes.drop_last(), cat)
    }
}

/// The recipes that a sequence of references points to.
pub open spec fn pointed(refs: Seq<&Recipe>) -> Seq<Recipe> {
    refs.map_values(|r: &Recipe| *r)
}

/// Where `r` goes: it takes the place `p` of a recipe with its id, or it goes
/// in before `p`.
pub proof fn lemma_upserted_at(sorted: Seq<Recipe>, r: Recipe, p: int, replace: bool)
    requires
        0 <= p <= sorted.len(),
        forall|j: int|
            p <= j < sorted.len() && !(replace && j == p) ==> sorted[j].id@ != r.id@ && lex_less(
                r.id@,
                sorted[j].id@,
            ),
        replace ==> p < sorted.len() && sorted[p].id@ == r.id@,
        !replace && p > 0 ==> sorted[p - 1].id@ != r.id@ && !lex_less(r.id@, sorted[p - 1].id@),
    ensures
        upserted(sorted, r) == if replace {
            sorted.update(p, r)
        } else {
            sorted.insert(p, r)
        },
    decreases sorted.len() - p,
{
    if sorted.len() == 0 {
        assert(seq![r] =~= sorted.insert(p, r));
    } else if replace && p == sorted.len() - 1 {
        assert(sorted.drop_last().push(r) =~= sorted.update(p, r));
    } else if p < sorted.len() {
        let front = sorted.drop_last();
        lemma_upserted_at(front, r, p, replace);
        if replace {
            assert(front.update(p, r).push(sorted.last()) =~= sorted.update(p, r));
        } else {
            assert(front.insert(p, r).push(sorted.last()) =~= sorted.insert(p, r));
        }
    } else {
        assert(sorted.push(r) =~= sorted.insert(p, r));
    }
}

/// Putting a recipe into recipes with ascending ids leaves the ids
/// ascending.
pub proof fn lemma_upserted_ascending(sorted: Seq<Recipe>, r: Recipe)
    requires
        ascending(sorted),
    ensures
        ascending(upserted(sorted, r)),
        forall|k: int|
            0 <= k < upserted(sorted, r).len() ==> (#[trigger] upserted(sorted, r)[k]) == r
                || exists|q: int| 0 <= q < sorted.len() && sorted[q] == upserted(sorted, r)[k],
    decreases sorted.len(),
{
    let out = upserted(sorted, r);
    if sorted.len() == 0 {
    } else if sorted.last().id@ == r.id@ {
        let front = sorted.drop_last();
        assert forall|i: int, j: int| 0 <= i < j < out.len() implies lex_less(
            out[i].id@,
            out[j].id@,
        ) by {
            assert(out[i] == sorted[i]);
            if j < front.len() {
                assert(out[j] == sorted[j]);
            } else {
                assert(lex_less(sorted[i].id@, sorted[sorted.len() - 1].id@));
            }
        }
        assert forall|k: int| 0 <= k < out.len() implies (#[trigger] out[k]) == r || exists|
            q: int,
        | 0 <= q < sorted.len() && sorted[q] == out[k] by {
            if k < front.len() {
                assert(sorted[k] == out[k]);
            }
        }
    } else if lex_less(r.id@, sorted.last().id@) {
        let front = sorted.drop_last();
        let last = sorted.last();
        assert(ascending(front)) by {
            assert forall|i: int, j: int| 0 <= i < j < front.len() implies lex_less(
                front[i].id@,
                front[j].id@,
            ) by {
                assert(front[i] == sorted[i] && front[j] == sorted[j]);
            }
        }
        lemma_upserted_ascending(front, r);
        let mid = upserted(front, r);
        assert forall|i: int, j: int| 0 <= i < j < out.len() implies lex_less(
            out[i].id@,
            out[j].id@,
        ) by {
            if j < mid.len() {
                assert(out[i] == mid[i] && out[j] == mid[j]);
            } else {
                assert(out[i] == mid[i]);
                if mid[i] == r {
                } else {
                    let q = choose|q: int| 0 <= q < front.len() && front[q] == mid[i];
                    assert(sorted[q] == mid[i]);
                    assert(lex_less(sorted[q].id@, sorted[sorted.len() - 1].id@));
                }
            }
        }
        assert forall|k: int| 0 <= k < out.len() implies (#[trigger] out[k]) == r || exists|
            q: int,
        | 0 <= q < sorted.len() && sorted[q] == out[k] by {
            if k < mid.len() {
                assert(out[k] == mid[k]);
                if mid[k] != r {
                    let q = choose|q: int| 0 <= q < front.len() && front[q] == mid[k];
                    assert(sorted[q] == out[k]);
                }
            } else {
                assert(sorted[sorted.len() - 1] == out[k]);
            }
        }
    } else {
        let last = sorted.last();
        lemma_lex_total(r.id@, last.id@);
        assert forall|i: int, j: int| 0 <= i < j < out.len() implies lex_less(
            out[i].id@,
            out[j].id@,
        ) by {
            if j == sorted.len() {
                if i < sorted.len() - 1 {
                    assert(lex_less(sorted[i].id@, sorted[sorted.len() - 1].id@));
                    lemma_lex_transitive(sorted[i].id@, last.id@, r.id@);
                }
            }
        }
        assert forall|k: int| 0 <= k < out.len() implies (#[trigger] out[k]) == r || exists|
            q: int,
        | 0 <= q < sorted.len() && sorted[q] == out[k] by {
            if k < sorted.len() {
                assert(sorted[k] == out[k]);
            }
        }
    }
}

/// Merged recipes have ascending ids: one recipe for each id, in the order of
/// the ids.
pub proof fn lemma_merged_into_ascending(acc: Seq<Recipe>, more: Seq<Recipe>)
    requires
        ascending(acc),
    ensures
        ascending(merged_into(acc, more)),
    decreases more.len(),
{
    if more.len() > 0 {
        lemma_merged_into_ascending(acc, more.drop_last());
        lemma_upserted_ascending(merged_into(acc, more.drop_last()), more.last());
    }
}

/// Puts `r` into `sorted`: in the place of the recipe with the same id, or
/// where its id belongs.
fn upsert(sorted: &mut Vec<Recipe>, r: Recipe)
    ensures
        final(sorted)@ == upserted(old(sorted)@, r),
{
    let id = chars_of(r.id.as_str());
    let mut p: usize = sorted.len();
    let mut placed = false;
    while p > 0 && !placed
        invariant
            p <= sorted.len(),
            sorted@ == old(sorted)@,
            id@ == r.id@,
            forall|j: int|
                p <= j < sorted.len() ==> sorted@[j].id@ != r.id@ && lex_less(
                    r.id@,
                    sorted@[j].id@,
                ),
            placed ==> p > 0 && sorted@[p - 1].id@ != r.id@ && !lex_less(
                r.id@,
                sorted@[p - 1].id@,
            ),
        decreases p + if placed { 0int } else { 1int },
    {
        let other = chars_of(sorted[p - 1].id.as_str());
        if chars_eq(&id, &other) {
            proof {
                lemma_upserted_at(sorted@, r, p - 1, true);
            }
            sorted.set(p - 1, r);
            return ;
        }
        if less(&id, &other) {
            p -= 1;
        } else {
            placed = true;
        }
    }
    proof {
        lemma_upserted_at(sorted@, r, p as int, false);
    }
    sorted.insert(p, r);
}

/// Puts the recipes of `more` into `acc`, one after the other.
fn merge_into(acc: &mut Vec<Recipe>, more: Vec<Recipe>)
    ensures
        final(acc)@ == merged_into(old(acc)@, more@),
{
    let ghost all = more@;
    let mut rest = more;
    assert(all.take(0) =~= Seq::empty());
    assert(all.skip(0) =~= all);
    while rest.len() > 0
        invariant
            rest@.len() <= all.len(),
            rest@ == all.skip(all.len() - rest@.len()),
            acc@ == merged_into(old(acc)@, all.take(all.len() - rest@.len())),
        decreases rest.len(),
    {
        let ghost k = all.len() - rest@.len();
        let r = rest.remove(0);
        assert(r == all[k]);
        assert(all.take(k + 1).drop_last() =~= all.take(k));
        assert(all.take(k + 1).last() == all[k]);
        assert(rest@ =~= all.skip(k + 1));
        upsert(acc, r);
    }
    assert(all.take(all.len() as int) =~= all);
}

/// Merges two lists of recipes. Where an id occurs in both, the recipe of
/// `overlay` is kept; the result stands in the order of the ids.
pub fn merge_recipes(base: Vec<Recipe>, overlay: Vec<Recipe>) -> (out: Vec<Recipe>)
    ensures
        out@ == merged(base@, overlay@),
        ascending(out@),
{
    let mut out: Vec<Recipe> = Vec::new();
    merge_into(&mut out, base);
    merge_into(&mut out, overlay);
    proof {
        lemma_merged_into_ascending(Seq::empty(), base@);
        lemma_merged_into_ascending(merged_into(Seq::empty(), base@), overlay@);
    }
    out
}

/// Whether `needle`, which is in lower case already, occurs in the lower
/// case form of `hay`.
fn holds(hay: &str, needle: &Vec<char>) -> (r: bool)
    ensures
        r == contains_text(lowercase(hay@), needle@),
{
    let lower = chars_of(to_lowercase(hay).as_str());
    find(&lower, needle, 0).is_some()
}

/// Whether `r` matches the query `q`, which is in lower case already.
fn recipe_matches(r: &Recipe, q: &Vec<char>) -> (found: bool)
    ensures
        found == matches_query(*r, q@),
{
    if holds(r.id.as_str(), q) || holds(r.display_name.as_str(), q) || holds(
        r.description.as_str(),
        q,
    ) {
        return true;
    }
    let mut k: usize = 0;
    while k < r.category.len()
        invariant
            k <= r.category.len(),
            forall|j: int| 0 <= j < k ==> !contains_text(lowercase(r.category@[j]@), q@),
        decreases r.category.len() - k,
    {
        if holds(r.category[k].as_str(), q) {
            return true;
        }
        k += 1;
    }
    false
}

/// Whether one of the categories of `r` is `cat`, which is in lower case
/// already.
fn recipe_in_category(r: &Recipe, cat: &str) -> (found: bool)
    ensures
        found == in_category(*r, cat@),
{
    let mut k: usize = 0;
    while k < r.category.len()
        invariant
            k <= r.category.len(),
            forall|j: int| 0 <= j < k ==> lowercase(r.category@[j]@) != cat@,
        decreases r.category.len() - k,
    {
        if str_eq(to_lowercase(r.category[k].as_str()).as_str(), cat) {
            return true;
        }
        k += 1;
    }
    false
}

/// The recipes that are at hand.
#[derive(Debug, Clone, PartialEq, Eq)]
pub struct RecipeRegistry {
    recipes: Vec<Recipe>,
}

impl View for RecipeRegistry {
    type V = Seq<Recipe>;

    closed spec fn view(&self) -> Seq<Recipe> {
        self.recipes@
    }
}

impl RecipeRegistry {
    /// The registry of the bundled recipes and those of the cache, where a
    /// cached recipe replaces the bundled one with the same id.
    pub fn new(bundled: Vec<Recipe>, cached: Vec<Recipe>) -> (registry: RecipeRegistry)
        ensures
            registry@ == merged(bundled@, cached@),
    {
        RecipeRegistry { recipes: merge_recipes(bundled, cached) }
    }

    /// The registry with the recipes of one more directory after its own.
    /// `extra` is what loading the directory gave; where that failed the
    /// registry stays as it is.
    pub fn with_extra_dir(self, extra: Result<Vec<Recipe>, GetapiError>) -> (registry:
        RecipeRegistry)
        ensures
            registry@ == self@ + match extra {
                Ok(more) => more@,
                Err(_) => Seq::empty(),
            },
    {
        let mut recipes = self.recipes;
        match extra {
            Ok(more) => {
                let mut more = more;
                recipes.append(&mut more);
            },
            Err(_) => {
                assert(recipes@ + Seq::<Recipe>::empty() =~= recipes@);
            },
        }
        RecipeRegistry { recipes }
    }

    /// The first recipe with the id `id`.
    pub fn find(&self, id: &str) -> (r: Option<&Recipe>)
        ensures
            match r {
                Some(found) => exists|i: int|
                    0 <= i < self@.len() && self@[i] == *found && found.id@ == id@ && forall|
                        j: int,
                    | 0 <= j < i ==> self@[j].id@ != id@,
                None => forall|j: int| 0 <= j < self@.len() ==> self@[j].id@ != id@,
            },
    {
        let mut i: usize = 0;
        while i < self.recipes.len()
            invariant
                i <= self.recipes.len(),
                forall|j: int| 0 <= j < i ==> self@[j].id@ != id@,
            decreases self.recipes.len() - i,
        {
            if str_eq(self.recipes[i].id.as_str(), id) {
                return Some(&self.recipes[i]);
            }
            i += 1;
        }
        None
    }

    /// All recipes, in the order of the registry.
    pub fn all(&self) -> (recipes: &Vec<Recipe>)
        ensures
            recipes@ == self@,
    {
        &self.recipes
    }

    /// The recipes that have `query` in their id, name, description or one of
    /// their categories, whatever the case of the letters.
    pub fn search(&self, query: &str) -> (found: Vec<&Recipe>)
        ensures
            pointed(found@) == found_by_query(self@, lowercase(query@)),
    {
        let q = chars_of(to_lowercase(query).as_str());
        let mut found: Vec<&Recipe> = Vec::new();
        let mut i: usize = 0;
        assert(self@.take(0) =~= Seq::empty());
        assert(pointed(found@) =~= Seq::empty());
        while i < self.recipes.len()
            invariant
                i <= self.recipes.len(),
                q@ == lowercase(query@),
                pointed(found@) == found_by_query(self@.take(i as int), q@),
            decreases self.recipes.len() - i,
        {
            assert(self@.take(i as int + 1).drop_last() =~= self@.take(i as int));
            assert(self@.take(i as int + 1).last() == self@[i as int]);
            if recipe_matches(&self.recipes[i], &q) {
                let r = &self.recipes[i];
                assert(pointed(found@.push(r)) =~= pointed(found@).push(*r));
                found.push(r);
            }
            i += 1;
        }
        assert(self@.take(self.recipes.len() as int) =~= self@);
        found
    }

    /// The recipes to list: those that match `search` where there is a
    /// query, else those of `category` where one is named, else all.
    pub fn list(&self, search: Option<&str>, category: Option<&str>) -> (found: Vec<&Recipe>)
        ensures
            pointed(found@) == match search {
                Some(query) => found_by_query(self@, lowercase(query@)),
                None => match category {
                    Some(cat) => found_in_category(self@, lowercase(cat@)),
                    None => self@,
                },
            },
    {
        if let Some(query) = search {
            return self.search(query);
        }
        if let Some(cat) = category {
            return self.filter_by_category(cat);
        }
        let mut found: Vec<&Recipe> = Vec::new();
        let mut i: usize = 0;
        assert(pointed(found@) =~= self@.take(0));
        while i < self.recipes.len()
            invariant
                i <= self.recipes.len(),
                pointed(found@) == self@.take(i as int),
            decreases self.recipes.len() - i,
        {
            let r = &self.recipes[i];
            assert(pointed(found@.push(r)) =~= pointed(found@).push(*r));
            assert(self@.take(i as int + 1) =~= self@.take(i as int).push(self@[i as int]));
            found.push(r);
            i += 1;
        }
        assert(self@.take(self.recipes.len() as int) =~= self@);
        found
    }

    /// The recipes of the category `category`, whatever the case of the
    /// letters.
    pub fn filter_by_category(&self, category: &str) -> (found: Vec<&Recipe>)
        ensures
            pointed(found@) == found_in_category(self@, lowercase(category@)),
    {
        let cat = to_lowercase(category);
        let mut found: Vec<&Recipe> = Vec::new();
        let mut i: usize = 0;
        assert(self@.take(0) =~= Seq::empty());
        assert(pointed(found@) =~= Seq::empty());
        while i < self.recipes.len()
            invariant
                i <= self.recipes.len(),
                cat@ == lowercase(category@),
                pointed(found@) == found_in_category(self@.take(i as int), cat@),
            decreases self.recipes.len() - i,
        {
            assert(self@.take(i as int + 1).drop_last() =~= self@.take(i as int));
            assert(self@.take(i as int + 1).last() == self@[i as int]);
            if recipe_in_category(&self.recipes[i], cat.as_str()) {
                let r = &self.recipes[i];
                assert(pointed(found@.push(r)) =~= pointed(found@).push(*r));
                found.push(r);
            }
            i += 1;
        }
        assert(self@.take(self.recipes.len() as int) =~= self@);
        found
    }
}

} // verus!
