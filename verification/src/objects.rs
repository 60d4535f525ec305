//! The part of Kubernetes object metadata that the controllers read and write.
use vstd::prelude::*;

verus! {

/// The API group and version of the custom resources.
pub const API_VERSION: &'static str = "inference.michelecampi.dev/v1alpha1";

/// A reference from an object to the object that owns it.
#[derive(Clone, Debug)]
pub struct OwnerReference {
    pub api_version: String,
    pub kind: String,
    pub name: String,
    pub uid: String,
    pub controller: bool,
}

/// Object metadata. `labels` holds pairs of key and value, with no key twice.
#[derive(Clone, Debug)]
pub struct ObjectMeta {
    pub name: Option<String>,
    pub generate_name: Option<String>,
    pub namespace: Option<String>,
    pub uid: Option<String>,
    pub labels: Vec<(String, String)>,
    pub owner_references: Vec<OwnerReference>,
}

/// What an owner reference says.
pub ghost struct OwnerView {
    pub api_version: Seq<char>,
    pub kind: Seq<char>,
    pub name: Seq<char>,
    pub uid: Seq<char>,
    pub controller: bool,
}

impl View for OwnerReference {
    type V = OwnerView;

    open spec fn view(&self) -> OwnerView {
        OwnerView {
            api_version: self.api_version@,
            kind: self.kind@,
            name: self.name@,
            uid: self.uid@,
            controller: self.controller,
        }
    }
}

/// The characters of an optional string.
pub open spec fn text_view(text: Option<String>) -> Option<Seq<char>> {
    match text {
        Some(t) => Some(t@),
        None => None,
    }
}

/// The characters of each string of a list.
pub open spec fn texts_view(texts: Seq<String>) -> Seq<Seq<char>> {
    texts.map_values(|t: String| t@)
}

/// The characters of each pair of a list of labels.
pub open spec fn labels_view(labels: Seq<(String, String)>) -> Seq<(Seq<char>, Seq<char>)> {
    labels.map_values(|l: (String, String)| (l.0@, l.1@))
}

/// What each owner reference of a list says.
pub open spec fn owners_view(owners: Seq<OwnerReference>) -> Seq<OwnerView> {
    owners.map_values(|o: OwnerReference| o@)
}

/// A copy of an optional string.
pub fn copy_text(text: &Option<String>) -> (r: Option<String>)
    ensures
        r == *text,
{
    match text {
        Some(t) => Some(t.clone()),
        None => None,
    }
}

/// A copy of a list of strings.
pub fn copy_texts(texts: &Vec<String>) -> (r: Vec<String>)
    ensures
        r@ == texts@,
{
    let mut out: Vec<String> = Vec::new();
    let mut i: usize = 0;
    while i < texts.len()
        invariant
            i <= texts@.len(),
            out@ == texts@.take(i as int),
        decreases texts@.len() - i,
    {
        out.push(texts[i].clone());
        i = i + 1;
    }
    proof {
        assert(texts@.take(texts@.len() as int) == texts@);
    }
    out
}

/// A copy of a list of labels.
pub fn copy_labels(labels: &Vec<(String, String)>) -> (r: Vec<(String, String)>)
    ensures
        r@ == labels@,
{
    let mut out: Vec<(String, String)> = Vec::new();
    let mut i: usize = 0;
    while i < labels.len()
        invariant
            i <= labels@.len(),
            out@ == labels@.take(i as int),
        decreases labels@.len() - i,
    {
        out.push((labels[i].0.clone(), labels[i].1.clone()));
        i = i + 1;
    }
    proof {
        assert(labels@.take(labels@.len() as int) == labels@);
    }
    out
}

impl ObjectMeta {
    /// The name by which the object is spoken of: its name, else the prefix that its name is to be
    /// generated from, else nothing.
    pub open spec fn any_name(&self) -> Seq<char> {
        match (self.name, self.generate_name) {
            (Some(n), _) => n@,
            (None, Some(g)) => g@,
            (None, None) => Seq::empty(),
        }
    }

    /// Whether the object can be named as an owner.
    pub open spec fn can_own(&self) -> bool {
        self.name is Some && self.uid is Some
    }

    /// The reference by which an object of the given kind is named as the controlling owner.
    pub open spec fn owner_view(&self, kind: Seq<char>) -> OwnerView {
        OwnerView {
            api_version: API_VERSION@,
            kind,
            name: self.name->0@,
            uid: self.uid->0@,
            controller: true,
        }
    }

    /// The name by which the object is spoken of.
    pub fn name_any(&self) -> (r: String)
        ensures
            r@ == self.any_name(),
    {
        match &self.name {
            Some(n) => n.clone(),
            None => match &self.generate_name {
                Some(g) => g.clone(),
                None => String::new(),
            },
        }
    }

    /// A reference to this object as the controlling owner of another. An object that lacks a name
    /// or a uid cannot be an owner.
    pub fn controller_owner_ref(&self, kind: &str) -> (r: Option<OwnerReference>)
        ensures
            r is Some <==> self.can_own(),
            r is Some ==> r->0@ == self.owner_view(kind@),
    {
        match (&self.name, &self.uid) {
            (Some(n), Some(u)) => Some(
                OwnerReference {
                    api_version: API_VERSION.to_string(),
                    kind: kind.to_string(),
                    name: n.clone(),
                    uid: u.clone(),
                    controller: true,
                },
            ),
            _ => None,
        }
    }
}

} // verus!
