//! The remote repository of recipes and its local cache: what is fetched from
//! where, and which files of the cache are recipes. Fetching and caching are
//! the caller's part.

use crate::text::{chars_of, concat3, matches_at, str_eq};
use vstd::prelude::*;

verus! {

/// Where the recipes of the repository stand.
pub const BASE_URL: &'static str =
    "https://raw.githubusercontent.com/m2de/getapi/master/providers";

/// The name of the index, in the repository and in the cache.
pub const INDEX_FILE: &'static str = "index.json";

/// How a file name ends that holds JSON.
pub const JSON_SUFFIX: &'static str = ".json";

/// One recipe of the repository, as its index lists it.
#[derive(Debug, Clone, PartialEq, Eq)]
pub struct RecipeIndexEntry {
    pub id: String,
    pub file: String,
    pub version: String,
}

/// The index of the repository.
#[derive(Debug, Clone, PartialEq, Eq)]
pub struct RecipeIndex {
    pub schema_version: String,
    pub updated_at: String,
    pub recipes: Vec<RecipeIndexEntry>,
}

/// The address of the file `file` of the repository.
pub open spec fn address_of(file: Seq<char>) -> Seq<char> {
    BASE_URL@ + "/"@ + file
}

/// Whether a file name has the extension `json`: it ends in `.json` and has
/// something before that.
pub open spec fn is_json_name(name: Seq<char>) -> bool {
    name.len() > JSON_SUFFIX@.len() && name.subrange(
        name.len() - JSON_SUFFIX@.len(),
        name.len() as int,
    ) == JSON_SUFFIX@
}

/// Whether a file of the cache holds a recipe: every JSON file but the index
/// does.
pub open spec fn is_recipe_name(name: Seq<char>) -> bool {
    is_json_name(name) && name != INDEX_FILE@
}

/// The address of the index of the repository.
pub fn index_url() -> (url: String)
    ensures
        url@ == address_of(INDEX_FILE@),
{
    concat3(BASE_URL, "/", INDEX_FILE)
}

/// The address of the recipe that `entry` lists.
pub fn recipe_url(entry: &RecipeIndexEntry) -> (url: String)
    ensures
        url@ == address_of(entry.file@),
{
    concat3(BASE_URL, "/", entry.file.as_str())
}

/// Whether a file name has the extension `json`.
pub fn has_json_extension(name: &str) -> (r: bool)
    ensures
        r == is_json_name(name@),
{
    let text = chars_of(name);
    let suffix = chars_of(JSON_SUFFIX);
    if text.len() <= suffix.len() {
        return false;
    }
    matches_at(&text, &suffix, text.len() - suffix.len())
}

/// Whether the file `name` of the cache holds a recipe.
pub fn is_cached_recipe(name: &str) -> (r: bool)
    ensures
        r == is_recipe_name(name@),
{
    has_json_extension(name) && !str_eq(name, INDEX_FILE)
}

} // verus!
