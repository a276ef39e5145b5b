//! A remapping of an import prefix to a path, optionally limited to a context,
//! and its canonical textual form.
use foundry_compilers_artifacts_solc::remappings::{RelativeRemapping, RelativeRemappingPathBuf};
use std::path::PathBuf;
use vstd::prelude::*;

verus! {

/// A remapping: `name` is the import prefix, `path` the target as declared,
/// `context` the scope it is limited to (`None`: everywhere).
#[derive(Clone, Debug, PartialEq, Eq)]
pub struct Remapping {
    pub context: Option<String>,
    pub name: String,
    pub path: String,
}

/// The mathematical value of a `Remapping`.
pub struct RemappingView {
    pub context: Option<Seq<char>>,
    pub name: Seq<char>,
    pub path: Seq<char>,
}

impl View for Remapping {
    type V = RemappingView;

    open spec fn view(&self) -> RemappingView {
        RemappingView { context: self.context.deep_view(), name: self.name@, path: self.path@ }
    }
}

/// The canonical single-line form `[context:]name=path` of a remapping with
/// the given context, name and declared path.
pub uninterp spec fn remapping_text(
    context: Option<Seq<char>>,
    name: Seq<char>,
    path: Seq<char>,
) -> Seq<char>;

impl RemappingView {
    /// The canonical form of this remapping.
    pub open spec fn text(self) -> Seq<char> {
        remapping_text(self.context, self.name, self.path)
    }

    /// The canonical form of this remapping with its context left out.
    pub open spec fn bare_text(self) -> Seq<char> {
        remapping_text(None, self.name, self.path)
    }
}

/// The views of a sequence of remappings, in order.
pub open spec fn views(rs: Seq<Remapping>) -> Seq<RemappingView> {
    rs.map_values(|r: Remapping| r@)
}

/// Relies on the `Display` impl of `RelativeRemapping` in
/// foundry-compilers-artifacts-solc: it writes the canonical form from the
/// context, the name and the path as declared, and from nothing else (the
/// parent directory is not read). On a given target the text depends on
/// these values alone; Windows builds write `/` for each backslash.
#[verifier::external_body]
fn render_remapping(context: &Option<String>, name: &String, path: &String) -> (r: String)
    ensures
        r@ == remapping_text(context.deep_view(), name@, path@),
{
    let path = RelativeRemappingPathBuf { parent: None, path: PathBuf::from(path) };
    RelativeRemapping { context: context.clone(), name: name.clone(), path }.to_string()
}

impl Remapping {
    pub fn new(context: Option<String>, name: String, path: String) -> (r: Remapping)
        ensures
            r.context == context,
            r.name == name,
            r.path == path,
    {
        Remapping { context, name, path }
    }

    /// The canonical form `[context:]name=path`.
    pub fn text(&self) -> (r: String)
        ensures
            r@ == self@.text(),
    {
        render_remapping(&self.context, &self.name, &self.path)
    }

    /// The canonical form with the context left out: `name=path`.
    pub fn bare_text(&self) -> (r: String)
        ensures
            r@ == self@.bare_text(),
    {
        render_remapping(&None, &self.name, &self.path)
    }
}

} // verus!
