//! The browser tab's title.
//!
//! The app runs inside the gateway's frame, so setting the document's title
//! changes only the frame's: the parent shell is told as well, when the title
//! is a new one.

use crate::text;
use vstd::prelude::*;

verus! {

/// The title last shown to the parent shell.
pub struct LastTitle {
    title: String,
}

impl View for LastTitle {
    type V = Seq<char>;

    closed spec fn view(&self) -> Seq<char> {
        self.title@
    }
}

/// A title to show, and whether the parent shell is to be told of it.
#[derive(Debug, Clone, PartialEq, Eq)]
pub struct TitleChange {
    pub title: String,
    pub tell_parent: bool,
}

impl LastTitle {
    /// No title shown yet.
    pub fn new() -> (r: Self)
        ensures
            r@ == Seq::<char>::empty(),
    {
        LastTitle { title: String::new() }
    }
}

/// Show `title`: the parent shell is told only if it is not the title last
/// shown.
pub fn set_title(last: &mut LastTitle, title: &str) -> (r: TitleChange)
    ensures
        r.title@ == title@,
        r.tell_parent == (old(last)@ != title@),
        final(last)@ == title@,
{
    let changed = !text::same_text(&last.title, title);
    if changed {
        last.title = title.to_string();
    }
    TitleChange { title: title.to_string(), tell_parent: changed }
}

/// Show just the app's name.
pub fn set_default_title(last: &mut LastTitle) -> (r: TitleChange)
    ensures
        r.title@ == "Harvest"@,
        r.tell_parent == (old(last)@ != "Harvest"@),
        final(last)@ == "Harvest"@,
{
    set_title(last, "Harvest")
}

/// Show the app's name and a store's.
pub fn set_store_title(last: &mut LastTitle, store_name: &str) -> (r: TitleChange)
    ensures
        r.title@ == "Harvest - "@ + store_name@,
        r.tell_parent == (old(last)@ != "Harvest - "@ + store_name@),
        final(last)@ == "Harvest - "@ + store_name@,
{
    let mut title = "Harvest - ".to_string();
    title.append(store_name);
    set_title(last, &title)
}

} // verus!
