//! The settings of the user.

use crate::text::{clone_strs, strs};
use vstd::prelude::*;

verus! {

/// The settings, as plain text.
pub struct DataView {
    /// The nickname of the user.
    pub nick: Seq<char>,
    /// Where the user's own feed lies on disk.
    pub path: Seq<char>,
    /// The address of the user's own feed.
    pub url: Seq<char>,
    /// The followed feeds, each as a nickname, a gap and an address.
    pub follow: Seq<Seq<char>>,
}

/// The settings of the user.
#[derive(Debug, PartialEq, Eq)]
pub struct Data {
    /// The nickname of the user.
    pub nick: String,
    /// Where the user's own feed lies on disk.
    pub path: String,
    /// The address of the user's own feed.
    pub url: String,
    /// The followed feeds, each as a nickname, a gap and an address.
    pub follow: Vec<String>,
}

impl View for Data {
    type V = DataView;

    open spec fn view(&self) -> DataView {
        DataView {
            nick: self.nick@,
            path: self.path@,
            url: self.url@,
            follow: strs(self.follow@),
        }
    }
}

impl Clone for Data {
    /// Settings with the same nickname, path, address and followed feeds.
    fn clone(&self) -> (r: Self)
        ensures
            r@ == self@,
    {
        Data {
            nick: self.nick.clone(),
            path: self.path.clone(),
            url: self.url.clone(),
            follow: clone_strs(&self.follow),
        }
    }
}

} // verus!
