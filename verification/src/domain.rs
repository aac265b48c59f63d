//! The domain records the tool works over, and the generic menu-label
//! capability that lets distinct record kinds share one selection menu.

use vstd::prelude::*;

verus! {

/// A credential pair sent as HTTP Basic authentication on every request.
/// Obtained once per run and never persisted.
pub struct BasicAuth {
    pub username: String,
    pub credential: String,
}

/// One organization, decoded from an element of the organizations listing.
pub struct Org {
    pub login: String,
    pub repos_url: String,
    pub description: String,
}

/// One repository, decoded from an element of a repositories listing page.
pub struct Repo {
    pub name: String,
    pub ssh_url: String,
}

/// An item that can render a short label for a numbered selection menu.
pub trait MenuDisplay {
    /// The label's characters.
    spec fn label_spec(&self) -> Seq<char>;

    /// Renders the label.
    fn label(&self) -> (r: String)
        ensures
            r@ == self.label_spec(),
    ;
}

impl MenuDisplay for Org {
    open spec fn label_spec(&self) -> Seq<char> {
        self.login@
    }

    fn label(&self) -> (r: String) {
        self.login.clone()
    }
}

impl MenuDisplay for Repo {
    open spec fn label_spec(&self) -> Seq<char> {
        self.name@
    }

    fn label(&self) -> (r: String) {
        self.name.clone()
    }
}

/// The clone invocations the orchestrator owes for a repository listing:
/// exactly one per repository, in listing order, each with that
/// repository's clone URL.
pub fn clone_plan(repos: &Vec<Repo>) -> (r: Vec<String>)
    ensures
        r@.len() == repos@.len(),
        forall|i: int| 0 <= i < repos@.len() ==> r@[i]@ == repos@[i].ssh_url@,
{
    let mut urls: Vec<String> = Vec::new();
    let n = repos.len();
    for k in 0..n
        invariant
            n == repos@.len(),
            urls@.len() == k,
            forall|i: int| 0 <= i < k ==> urls@[i]@ == repos@[i].ssh_url@,
    {
        urls.push(repos[k].ssh_url.clone());
    }
    urls
}

} // verus!
