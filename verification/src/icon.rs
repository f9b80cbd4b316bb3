//! Named cursor icons.

use vstd::prelude::*;

verus! {

/// The name of the default icon.
pub const DEFAULT_NAME: &'static str = "default";

/// A named cursor icon.
#[derive(Debug)]
pub struct CursorIcon {
    pub name: String,
    /// Names that themes use for it which do not follow the standard.
    pub alt_names: Vec<String>,
}

/// The texts of a list of strings.
pub open spec fn texts(strings: Seq<String>) -> Seq<Seq<char>> {
    Seq::new(strings.len(), |i: int| strings[i]@)
}

/// The alternative names of the icon with a name, if there is such an icon.
pub uninterp spec fn icon_alt_names(name: Seq<char>) -> Option<Seq<Seq<char>>>;

/// Look up an icon by its name and list its alternative names, with
/// `cursor_icon::CursorIcon`: its `FromStr` and `alt_names`.
///
/// What they return depends on the name alone, and has a name here. Not proved is
/// also that there is a default icon.
#[verifier::external_body]
fn look_up(name: &str) -> (alt_names: Option<Vec<String>>)
    ensures
        (match alt_names {
            Some(names) => icon_alt_names(name@) == Some(texts(names@)),
            None => icon_alt_names(name@) is None,
        }),
        name@ == DEFAULT_NAME@ ==> alt_names is Some,
{
    match name.parse::<cursor_icon::CursorIcon>() {
        Ok(icon) => Some(icon.alt_names().iter().map(|n| n.to_string()).collect()),
        Err(_) => None,
    }
}

impl CursorIcon {
    /// The icon with a name, if there is one.
    pub fn from_name(name: &str) -> (icon: Option<Self>)
        ensures
            (match icon {
                Some(icon) => icon.name@ == name@ && icon_alt_names(name@) == Some(
                    texts(icon.alt_names@),
                ),
                None => icon_alt_names(name@) is None,
            }),
            name@ == DEFAULT_NAME@ ==> icon is Some,
    {
        match look_up(name) {
            Some(alt_names) => Some(CursorIcon { name: name.to_owned(), alt_names }),
            None => None,
        }
    }

    /// The default icon.
    pub fn default_icon() -> (icon: Self)
        ensures
            icon.name@ == DEFAULT_NAME@,
            icon_alt_names(DEFAULT_NAME@) == Some(texts(icon.alt_names@)),
    {
        CursorIcon::from_name(DEFAULT_NAME).unwrap()
    }

    /// Whether it is the default icon.
    pub fn is_default(&self) -> (r: bool)
        ensures
            r == (self.name@ == DEFAULT_NAME@),
    {
        self.name == DEFAULT_NAME.to_owned()
    }
}

impl Clone for CursorIcon {
    fn clone(&self) -> (r: Self)
        ensures
            r.name@ == self.name@,
            r.alt_names@.len() == self.alt_names@.len(),
            texts(r.alt_names@) == texts(self.alt_names@),
    {
        let mut alt_names: Vec<String> = Vec::new();
        let mut i: usize = 0;
        while i < self.alt_names.len()
            invariant
                i <= self.alt_names@.len(),
                alt_names@.len() == i,
                forall|j: int| 0 <= j < i ==> (#[trigger] alt_names@[j])@ == self.alt_names@[j]@,
            decreases self.alt_names@.len() - i,
        {
            alt_names.push(self.alt_names[i].clone());
            i = i + 1;
        }
        assert(texts(alt_names@) =~= texts(self.alt_names@));
        CursorIcon { name: self.name.clone(), alt_names }
    }
}

} // verus!
