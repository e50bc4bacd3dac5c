//! Client-side state: moving a selection through a list, which pane has
//! the focus, and the client's configuration.

use crate::model::LibraryNode;
use crate::playback::{InitData, Update};
use vstd::prelude::*;

verus! {

/// How far `up` and `down` move the selection.
pub const PAGE_STEP: usize = 15;

/// A list whose selection can be moved around. Implementors give the size
/// and the selection; the moves are provided.
pub trait StatefulList {
    spec fn size_of(&self) -> nat;

    spec fn selection_of(&self) -> Option<usize>;

    fn get_size(&self) -> (r: usize)
        ensures
            r == self.size_of();

    fn select(&mut self, idx: Option<usize>)
        ensures
            final(self).selection_of() == idx,
            final(self).size_of() == old(self).size_of();

    fn selected(&self) -> (r: Option<usize>)
        ensures
            r == self.selection_of();

    /// Selects the first item.
    fn first(&mut self)
        ensures
            final(self).size_of() == old(self).size_of(),
            final(self).selection_of() == if old(self).size_of() == 0 {
                old(self).selection_of()
            } else {
                Some(0usize)
            },
    {
        if self.is_empty() {
            return;
        }
        self.select(Some(0));
    }

    /// Selects the last item.
    fn last(&mut self)
        ensures
            final(self).size_of() == old(self).size_of(),
            final(self).selection_of() == if old(self).size_of() == 0 {
                old(self).selection_of()
            } else {
                Some((old(self).size_of() - 1) as usize)
            },
    {
        if self.is_empty() {
            return;
        }
        let n = self.get_size();
        self.select(Some(n - 1));
    }

    /// Selects the next item, wrapping from the last to the first.
    fn next(&mut self)
        requires
            old(self).selection_of() is Some ==> old(self).selection_of()->0 < usize::MAX,
        ensures
            final(self).size_of() == old(self).size_of(),
            final(self).selection_of() == if old(self).size_of() == 0 {
                old(self).selection_of()
            } else {
                match old(self).selection_of() {
                    Some(i) => if i == old(self).size_of() - 1 {
                        Some(0usize)
                    } else {
                        Some((i + 1) as usize)
                    },
                    None => Some(0usize),
                }
            },
    {
        if self.is_empty() {
            return;
        }
        match self.selected() {
            Some(i) => {
                let n = self.get_size();
                let next = if i == n - 1 { 0 } else { i + 1 };
                self.select(Some(next));
            },
            None => self.select(Some(0)),
        }
    }

    /// Selects the previous item, wrapping from the first to the last.
    fn prev(&mut self)
        ensures
            final(self).size_of() == old(self).size_of(),
            final(self).selection_of() == if old(self).size_of() == 0 {
                old(self).selection_of()
            } else {
                match old(self).selection_of() {
                    Some(i) => if i == 0 {
                        Some((old(self).size_of() - 1) as usize)
                    } else {
                        Some((i - 1) as usize)
                    },
                    None => Some(0usize),
                }
            },
    {
        if self.is_empty() {
            return;
        }
        match self.selected() {
            Some(i) => {
                let n = self.get_size();
                let prev = if i == 0 { n - 1 } else { i - 1 };
                self.select(Some(prev));
            },
            None => self.select(Some(0)),
        }
    }

    /// Moves the selection a page down, stopping at the last item.
    fn down(&mut self)
        ensures
            final(self).size_of() == old(self).size_of(),
            final(self).selection_of() == if old(self).size_of() == 0 {
                old(self).selection_of()
            } else {
                match old(self).selection_of() {
                    Some(i) => if i + PAGE_STEP < old(self).size_of() {
                        Some((i + PAGE_STEP) as usize)
                    } else {
                        Some((old(self).size_of() - 1) as usize)
                    },
                    None => Some(0usize),
                }
            },
    {
        if self.is_empty() {
            return;
        }
        match self.selected() {
            Some(i) => {
                let n = self.get_size();
                let next = if n >= PAGE_STEP && i < n - PAGE_STEP {
                    i + PAGE_STEP
                } else {
                    n - 1
                };
                self.select(Some(next));
            },
            None => self.select(Some(0)),
        }
    }

    /// Moves the selection a page up, stopping at the first item.
    fn up(&mut self)
        ensures
            final(self).size_of() == old(self).size_of(),
            final(self).selection_of() == if old(self).size_of() == 0 {
                old(self).selection_of()
            } else {
                match old(self).selection_of() {
                    Some(i) => if i < PAGE_STEP {
                        Some(0usize)
                    } else {
                        Some((i - PAGE_STEP) as usize)
                    },
                    None => Some(0usize),
                }
            },
    {
        if self.is_empty() {
            return;
        }
        match self.selected() {
            Some(i) => {
                let prev = if i < PAGE_STEP { 0 } else { i - PAGE_STEP };
                self.select(Some(prev));
            },
            None => self.select(Some(0)),
        }
    }

    fn is_selected(&self) -> (r: bool)
        ensures
            r == self.selection_of() is Some,
    {
        self.selected().is_some()
    }

    fn is_empty(&self) -> (r: bool)
        ensures
            r == (self.size_of() == 0),
    {
        self.get_size() == 0
    }

    /// Brings the selection back into the list after its size changed:
    /// none for an empty list, else the first item when there was none,
    /// and at most the last item.
    fn update_selection(&mut self)
        ensures
            final(self).size_of() == old(self).size_of(),
            final(self).selection_of() == if old(self).size_of() == 0 {
                None
            } else {
                match old(self).selection_of() {
                    None => Some(0usize),
                    Some(i) => if i > old(self).size_of() - 1 {
                        Some((old(self).size_of() - 1) as usize)
                    } else {
                        Some(i)
                    },
                }
            },
    {
        if self.is_empty() {
            self.select(None);
            return;
        }
        match self.selected() {
            None => {
                self.select(Some(0));
            },
            Some(selected) => {
                let n = self.get_size();
                if selected > n - 1 {
                    self.select(Some(n - 1));
                }
            },
        }
    }
}

/// The selection in a list of `size` items.
#[derive(Clone, Copy, Debug, PartialEq, Eq)]
pub struct ListSelection {
    pub size: usize,
    pub selected: Option<usize>,
}

impl StatefulList for ListSelection {
    open spec fn size_of(&self) -> nat {
        self.size as nat
    }

    open spec fn selection_of(&self) -> Option<usize> {
        self.selected
    }

    fn get_size(&self) -> (r: usize) {
        self.size
    }

    fn select(&mut self, idx: Option<usize>) {
        self.selected = idx;
    }

    fn selected(&self) -> (r: Option<usize>) {
        self.selected
    }
}

/// The pane of the client that has the focus.
#[derive(Clone, Copy, Debug, PartialEq, Eq)]
pub enum UiFocus {
    Library,
    Queue,
}

impl UiFocus {
    /// The pane that gets the focus next: the queue only when it has items.
    pub fn cycle(self, queue_is_empty: bool) -> (r: UiFocus)
        ensures
            r == match self {
                UiFocus::Library => if queue_is_empty {
                    UiFocus::Library
                } else {
                    UiFocus::Queue
                },
                UiFocus::Queue => UiFocus::Library,
            },
    {
        match self {
            UiFocus::Library => if queue_is_empty {
                UiFocus::Library
            } else {
                UiFocus::Queue
            },
            UiFocus::Queue => UiFocus::Library,
        }
    }
}

/// What the connection to the server hands to the client's interface.
#[derive(Clone, Debug, PartialEq, Eq)]
pub enum MessageToUi {
    Init(InitData),
    ReplaceLibraryNode(LibraryNode),
    Update(Update),
}

/// Where the client finds the server.
#[derive(Clone, Debug, PartialEq, Eq)]
pub struct ServerConfig {
    pub address: String,
}

impl Default for ServerConfig {
    fn default() -> (r: ServerConfig)
        ensures
            r.address@ == "http://127.0.0.1:50051"@,
    {
        ServerConfig { address: "http://127.0.0.1:50051".to_owned() }
    }
}

/// The client's configuration.
#[derive(Clone, Debug, PartialEq, Eq)]
pub struct Config {
    pub server: ServerConfig,
}

impl Default for Config {
    fn default() -> (r: Config)
        ensures
            r.server.address@ == "http://127.0.0.1:50051"@,
    {
        Config { server: ServerConfig::default() }
    }
}

} // verus!
