//! The manifest of a project: the providers that it needs.

use crate::text::{lemma_texts_push, texts};
use vstd::prelude::*;

verus! {

/// One provider that a project names.
#[derive(Debug, Clone, PartialEq, Eq)]
pub struct ManifestProvider {
    pub id: String,
    pub reason: Option<String>,
    pub scopes: Vec<String>,
    pub required: bool,
}

/// Where a project wants its credentials written.
#[derive(Debug, Clone, PartialEq, Eq)]
pub struct ManifestOutput {
    pub format: String,
    pub file: String,
}

/// The providers that a project needs.
#[derive(Debug, Clone, PartialEq, Eq)]
pub struct Manifest {
    pub version: String,
    pub providers: Vec<ManifestProvider>,
    pub output: Option<ManifestOutput>,
}

/// A provider is required unless the manifest says otherwise.
pub fn default_true() -> (r: bool)
    ensures
        r,
{
    true
}

/// The output format of a manifest that names none.
pub fn default_env() -> (r: String)
    ensures
        r@ == "env"@,
{
    "env".to_owned()
}

/// The output file of a manifest that names none.
pub fn default_env_file() -> (r: String)
    ensures
        r@ == ".env"@,
{
    ".env".to_owned()
}

/// The ids of the required providers among `providers`, in their order.
pub open spec fn required_ids(providers: Seq<ManifestProvider>) -> Seq<Seq<char>>
    decreases providers.len(),
{
    if providers.len() == 0 {
        Seq::empty()
    } else if providers.last().required {
        required_ids(providers.drop_last()).push(providers.last().id@)
    } else {
        required_ids(providers.drop_last())
    }
}

impl Manifest {
    /// The ids of the providers that the project requires, in the order of
    /// the manifest.
    pub fn required_providers(&self) -> (ids: Vec<String>)
        ensures
            texts(ids@) == required_ids(self.providers@),
    {
        let ghost all = self.providers@;
        let mut ids: Vec<String> = Vec::new();
        let mut i: usize = 0;
        assert(all.take(0) =~= Seq::empty());
        assert(texts(ids@) =~= Seq::empty());
        while i < self.providers.len()
            invariant
                i <= self.providers.len(),
                all == self.providers@,
                texts(ids@) == required_ids(all.take(i as int)),
            decreases self.providers.len() - i,
        {
            assert(all.take(i as int + 1).drop_last() =~= all.take(i as int));
            assert(all.take(i as int + 1).last() == all[i as int]);
            if self.providers[i].required {
                let id = self.providers[i].id.clone();
                proof {
                    lemma_texts_push(ids@, id);
                }
                ids.push(id);
            }
            i += 1;
        }
        assert(all.take(self.providers.len() as int) =~= all);
        ids
    }
}

} // verus!
