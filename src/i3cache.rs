//! The snapshot that one run works on: the layout tree, the workspace list
//! and the output list, each fetched at most once, and the focused node and
//! focused workspace, found once and kept as paths into the owned tree.
//!
//! The cache does not talk to the window manager itself. When it lacks
//! something, it answers `CacheError::NotFetched` with what to fetch; the
//! caller fetches it and hands the result to the matching `store_` method.
use vstd::prelude::*;
use vstd::string::*;

use crate::model::{Node, Output, Workspace};
use crate::search::{
    focused_in, focused_path, focused_workspace_in, focused_workspace_path, node_at, resolve_path,
    Step,
};

verus! {

/// Something that the cache fetches from the window manager.
#[derive(Debug, Clone, Copy, PartialEq, Eq, Structural)]
pub enum Fetch {
    Tree,
    Workspaces,
    Outputs,
}

/// Why the cache cannot answer.
#[derive(Debug, Clone, PartialEq, Eq)]
pub enum CacheError {
    /// This has not been fetched yet: fetch it and store it.
    NotFetched(Fetch),
    /// Fetching failed; the transport's message.
    Transport(String),
    /// The snapshot has no such node.
    NotFound(String),
}

/// The fetched tree, workspace list and output list, and the paths to the
/// focused node and the focused workspace once they have been looked up.
pub struct I3Cache {
    tree: Option<Node>,
    workspaces: Option<Vec<Workspace>>,
    outputs: Option<Vec<Output>>,
    focused_node: Option<Vec<Step>>,
    focused_workspace: Option<Vec<Step>>,
}

/// What the cache holds: the tree, the workspace list and the output list,
/// each if it has been fetched.
pub struct CacheView {
    pub tree: Option<Node>,
    pub workspaces: Option<Seq<Workspace>>,
    pub outputs: Option<Seq<Output>>,
}

impl View for I3Cache {
    type V = CacheView;

    closed spec fn view(&self) -> CacheView {
        CacheView {
            tree: self.tree,
            workspaces: match self.workspaces {
                Some(w) => Some(w@),
                None => None,
            },
            outputs: match self.outputs {
                Some(o) => Some(o@),
                None => None,
            },
        }
    }
}

impl I3Cache {
    /// A kept path leads to what it was looked up for.
    #[verifier::type_invariant]
    spec fn paths_valid(&self) -> bool {
        &&& self.focused_node matches Some(p) ==> self.tree matches Some(t) && focused_in(t) is Some
            && node_at(t, p@) == focused_in(t)
        &&& self.focused_workspace matches Some(p) ==> self.tree matches Some(t)
            && self.workspaces matches Some(ws) && focused_workspace_in(ws@, t) is Some && node_at(
            t,
            p@,
        ) == focused_workspace_in(ws@, t)
    }

    /// An empty cache.
    pub fn new() -> (r: I3Cache)
        ensures
            r@.tree is None,
            r@.workspaces is None,
            r@.outputs is None,
    {
        I3Cache {
            tree: None,
            workspaces: None,
            outputs: None,
            focused_node: None,
            focused_workspace: None,
        }
    }

    /// Whether `what` still has to be fetched.
    pub fn needs(&self, what: Fetch) -> (r: bool)
        ensures
            r == match what {
                Fetch::Tree => self@.tree is None,
                Fetch::Workspaces => self@.workspaces is None,
                Fetch::Outputs => self@.outputs is None,
            },
    {
        match what {
            Fetch::Tree => self.tree.is_none(),
            Fetch::Workspaces => self.workspaces.is_none(),
            Fetch::Outputs => self.outputs.is_none(),
        }
    }

    /// Takes the result of fetching the tree. A failed fetch leaves the cache
    /// as it was and reports the transport's message; a tree that arrives when
    /// one is already held is dropped, so the snapshot never changes.
    pub fn store_tree(&mut self, fetched: Result<Node, String>) -> (r: Result<(), CacheError>)
        ensures
            final(self)@.workspaces == old(self)@.workspaces,
            final(self)@.outputs == old(self)@.outputs,
            old(self)@.tree is Some ==> final(self)@.tree == old(self)@.tree && r is Ok,
            old(self)@.tree is None ==> match fetched {
                Ok(t) => final(self)@.tree == Some(t) && r is Ok,
                Err(m) => final(self)@.tree is None && r == Err::<(), CacheError>(
                    CacheError::Transport(m),
                ),
            },
    {
        proof {
            use_type_invariant(&*self);
        }
        if self.tree.is_some() {
            return Ok(());
        }
        match fetched {
            Ok(t) => {
                self.tree = Some(t);
                Ok(())
            },
            Err(m) => Err(CacheError::Transport(m)),
        }
    }

    /// Takes the result of fetching the workspace list, as `store_tree` does.
    pub fn store_workspaces(&mut self, fetched: Result<Vec<Workspace>, String>) -> (r: Result<
        (),
        CacheError,
    >)
        ensures
            final(self)@.tree == old(self)@.tree,
            final(self)@.outputs == old(self)@.outputs,
            old(self)@.workspaces is Some ==> final(self)@.workspaces == old(self)@.workspaces
                && r is Ok,
            old(self)@.workspaces is None ==> match fetched {
                Ok(w) => final(self)@.workspaces == Some(w@) && r is Ok,
                Err(m) => final(self)@.workspaces is None && r == Err::<(), CacheError>(
                    CacheError::Transport(m),
                ),
            },
    {
        proof {
            use_type_invariant(&*self);
        }
        if self.workspaces.is_some() {
            return Ok(());
        }
        match fetched {
            Ok(w) => {
                self.workspaces = Some(w);
                Ok(())
            },
            Err(m) => Err(CacheError::Transport(m)),
        }
    }

    /// Takes the result of fetching the output list, as `store_tree` does.
    pub fn store_outputs(&mut self, fetched: Result<Vec<Output>, String>) -> (r: Result<
        (),
        CacheError,
    >)
        ensures
            final(self)@.tree == old(self)@.tree,
            final(self)@.workspaces == old(self)@.workspaces,
            old(self)@.outputs is Some ==> final(self)@.outputs == old(self)@.outputs && r is Ok,
            old(self)@.outputs is None ==> match fetched {
                Ok(o) => final(self)@.outputs == Some(o@) && r is Ok,
                Err(m) => final(self)@.outputs is None && r == Err::<(), CacheError>(
                    CacheError::Transport(m),
                ),
            },
    {
        proof {
            use_type_invariant(&*self);
        }
        if self.outputs.is_some() {
            return Ok(());
        }
        match fetched {
            Ok(o) => {
                self.outputs = Some(o);
                Ok(())
            },
            Err(m) => Err(CacheError::Transport(m)),
        }
    }

    /// The whole tree.
    pub fn full_tree(&self) -> (r: Result<&Node, CacheError>)
        ensures
            match self@.tree {
                Some(t) => r matches Ok(n) && *n == t,
                None => r == Err::<&Node, CacheError>(CacheError::NotFetched(Fetch::Tree)),
            },
    {
        match &self.tree {
            Some(t) => Ok(t),
            None => Err(CacheError::NotFetched(Fetch::Tree)),
        }
    }

    /// The workspace list.
    pub fn workspaces(&self) -> (r: Result<&Vec<Workspace>, CacheError>)
        ensures
            match self@.workspaces {
                Some(w) => r matches Ok(v) && v@ == w,
                None => r == Err::<&Vec<Workspace>, CacheError>(
                    CacheError::NotFetched(Fetch::Workspaces),
                ),
            },
    {
        match &self.workspaces {
            Some(w) => Ok(w),
            None => Err(CacheError::NotFetched(Fetch::Workspaces)),
        }
    }

    /// The output list.
    pub fn outputs(&self) -> (r: Result<&Vec<Output>, CacheError>)
        ensures
            match self@.outputs {
                Some(o) => r matches Ok(v) && v@ == o,
                None => r == Err::<&Vec<Output>, CacheError>(CacheError::NotFetched(Fetch::Outputs)),
            },
    {
        match &self.outputs {
            Some(o) => Ok(o),
            None => Err(CacheError::NotFetched(Fetch::Outputs)),
        }
    }

    /// The focused node of the tree, as the focus lists lead to it. It is
    /// looked up on the first call and kept for later ones.
    pub fn focused_node(&mut self) -> (r: Result<&Node, CacheError>)
        ensures
            final(self)@ == old(self)@,
            match old(self)@.tree {
                None => r == Err::<&Node, CacheError>(CacheError::NotFetched(Fetch::Tree)),
                Some(t) => match focused_in(t) {
                    Some(f) => r matches Ok(n) && *n == f,
                    None => r matches Err(CacheError::NotFound(_)),
                },
            },
    {
        proof {
            use_type_invariant(&*self);
        }
        if self.tree.is_none() {
            return Err(CacheError::NotFetched(Fetch::Tree));
        }
        if self.focused_node.is_none() {
            let mut path: Vec<Step> = Vec::new();
            let found = match &self.tree {
                Some(t) => {
                    let (found, Ghost(rest)) = focused_path(t, &mut path);
                    assert(found ==> path@ =~= rest);
                    found
                },
                None => false,
            };
            if !found {
                return Err(CacheError::NotFound(String::from_str("no focused node in the tree")));
            }
            self.focused_node = Some(path);
        }
        self.resolve_focused_node()
    }

    fn resolve_focused_node(&self) -> (r: Result<&Node, CacheError>)
        requires
            self.tree is Some,
            self.focused_node is Some,
        ensures
            r matches Ok(n) && Some(*n) == focused_in(self.tree->0),
    {
        proof {
            use_type_invariant(self);
        }
        match (&self.tree, &self.focused_node) {
            (Some(t), Some(p)) => match resolve_path(t, p) {
                Some(n) => Ok(n),
                None => Err(CacheError::NotFound(String::new())),
            },
            _ => Err(CacheError::NotFound(String::new())),
        }
    }

    /// The tree node of the focused workspace: the first node, in pre-order,
    /// named like the first workspace of the list marked focused. It is looked
    /// up on the first call and kept for later ones.
    pub fn focused_workspace(&mut self) -> (r: Result<&Node, CacheError>)
        ensures
            final(self)@ == old(self)@,
            match (old(self)@.tree, old(self)@.workspaces) {
                (None, _) => r == Err::<&Node, CacheError>(CacheError::NotFetched(Fetch::Tree)),
                (Some(_), None) => r == Err::<&Node, CacheError>(
                    CacheError::NotFetched(Fetch::Workspaces),
                ),
                (Some(t), Some(ws)) => match focused_workspace_in(ws, t) {
                    Some(f) => r matches Ok(n) && *n == f,
                    None => r matches Err(CacheError::NotFound(_)),
                },
            },
    {
        proof {
            use_type_invariant(&*self);
        }
        if self.tree.is_none() {
            return Err(CacheError::NotFetched(Fetch::Tree));
        }
        if self.workspaces.is_none() {
            return Err(CacheError::NotFetched(Fetch::Workspaces));
        }
        if self.focused_workspace.is_none() {
            let mut path: Vec<Step> = Vec::new();
            let found = match (&self.tree, &self.workspaces) {
                (Some(t), Some(ws)) => {
                    let (found, Ghost(rest)) = focused_workspace_path(ws, t, &mut path);
                    assert(found ==> path@ =~= rest);
                    found
                },
                _ => false,
            };
            if !found {
                return Err(
                    CacheError::NotFound(String::from_str("no focused workspace in the tree")),
                );
            }
            self.focused_workspace = Some(path);
        }
        self.resolve_focused_workspace()
    }

    fn resolve_focused_workspace(&self) -> (r: Result<&Node, CacheError>)
        requires
            self.tree is Some,
            self.workspaces is Some,
            self.focused_workspace is Some,
        ensures
            r matches Ok(n) && Some(*n) == focused_workspace_in(self.workspaces->0@, self.tree->0),
    {
        proof {
            use_type_invariant(self);
        }
        match (&self.tree, &self.focused_workspace) {
            (Some(t), Some(p)) => match resolve_path(t, p) {
                Some(n) => Ok(n),
                None => Err(CacheError::NotFound(String::new())),
            },
            _ => Err(CacheError::NotFound(String::new())),
        }
    }
}

} // verus!
