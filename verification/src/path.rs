//! Paths as the sequences of components that `std::path::Path::components`
//! yields on Windows, and the few path operations that routing needs.

use vstd::prelude::*;
use crate::bytes::{bytes_copy, bytes_equal, bytes_range};

verus! {

/// One component of a path.
pub enum PathComponent {
    /// A Windows prefix such as `C:` or `\\server\share`, as text, with the
    /// drive letter in upper case (the form in which std compares prefixes);
    /// the flag tells whether the prefix implies a root, which every kind of
    /// prefix but a plain drive letter does.
    Prefix(Vec<u8>, bool),
    /// The root separator.
    RootDir,
    /// A `.` at the start of a relative path.
    CurDir,
    /// A `..`.
    ParentDir,
    /// A file or directory name, as encoded bytes.
    Normal(Vec<u8>),
}

/// A path as its sequence of components. A path that `join` builds is the
/// sequence whose components, pushed one after another onto an empty
/// `PathBuf`, give the joined path.
pub struct ScriptPath {
    pub components: Vec<PathComponent>,
}

/// One component of a path, over byte sequences.
pub enum Comp {
    Prefix(Seq<u8>, bool),
    RootDir,
    CurDir,
    ParentDir,
    Normal(Seq<u8>),
}

impl View for PathComponent {
    type V = Comp;

    open spec fn view(&self) -> Comp {
        match self {
            PathComponent::Prefix(text, implicit_root) => Comp::Prefix(text@, *implicit_root),
            PathComponent::RootDir => Comp::RootDir,
            PathComponent::CurDir => Comp::CurDir,
            PathComponent::ParentDir => Comp::ParentDir,
            PathComponent::Normal(name) => Comp::Normal(name@),
        }
    }
}

impl View for ScriptPath {
    type V = Seq<Comp>;

    open spec fn view(&self) -> Seq<Comp> {
        self.components@.map_values(|c: PathComponent| c@)
    }
}

/// The path is absolute in the Windows sense: it starts with a prefix and
/// has a root, written or implied by the prefix.
pub open spec fn is_absolute(p: Seq<Comp>) -> bool {
    &&& p.len() >= 1
    &&& p[0] matches Comp::Prefix(_, implicit_root)
    &&& (implicit_root || (p.len() >= 2 && p[1] is RootDir))
}

/// `Path::parent` gives `None` or an empty path: the path has at most one
/// component, or it ends in a prefix or a root.
pub open spec fn has_no_parent_dir(p: Seq<Comp>) -> bool {
    p.len() <= 1 || p.last() is Prefix || p.last() is RootDir
}

/// `Path::file_name`: the last component when it is a name.
pub open spec fn file_name(p: Seq<Comp>) -> Option<Seq<u8>> {
    if p.len() >= 1 && p.last() is Normal {
        Some(p.last()->Normal_0)
    } else {
        None
    }
}

/// The index of the last `b` in `s`, or -1.
pub open spec fn last_index_of(s: Seq<u8>, b: u8) -> int
    decreases s.len(),
{
    if s.len() == 0 {
        -1
    } else if s.last() == b {
        s.len() - 1
    } else {
        last_index_of(s.drop_last(), b)
    }
}

/// `Path::extension` of a file name: what follows its last dot, when a
/// non-empty stem precedes that dot.
pub open spec fn extension(name: Seq<u8>) -> Option<Seq<u8>> {
    let dot = last_index_of(name, 0x2E);
    if name == seq![0x2Eu8, 0x2Eu8] || dot <= 0 {
        None
    } else {
        Some(name.skip(dot + 1))
    }
}

/// ASCII lower case of one byte.
pub open spec fn ascii_lower(b: u8) -> u8 {
    if 0x41 <= b <= 0x5A {
        (b + 0x20) as u8
    } else {
        b
    }
}

/// The two byte strings are equal up to ASCII case.
pub open spec fn eq_ignore_ascii_case(a: Seq<u8>, b: Seq<u8>) -> bool {
    a.len() == b.len() && forall|i: int| 0 <= i < a.len() ==> ascii_lower(a[i]) == ascii_lower(b[i])
}

/// The path names a Lua script: its file name has the extension `lua`, in
/// any ASCII case.
pub open spec fn is_lua_script(p: Seq<Comp>) -> bool {
    &&& file_name(p) matches Some(name)
    &&& extension(name) matches Some(ext)
    &&& eq_ignore_ascii_case(ext, seq![0x6Cu8, 0x75u8, 0x61u8])
}

/// `Path::strip_prefix`: what follows `base` when `base` is a leading run of
/// components of `p`.
pub open spec fn strip_prefix(p: Seq<Comp>, base: Seq<Comp>) -> Option<Seq<Comp>> {
    if base.len() <= p.len() && p.take(base.len() as int) == base {
        Some(p.skip(base.len() as int))
    } else {
        None
    }
}

impl PathComponent {
    /// A copy of the component.
    pub fn copy(&self) -> (out: PathComponent)
        ensures
            out@ == self@,
    {
        match self {
            PathComponent::Prefix(text, implicit_root) => PathComponent::Prefix(
                bytes_copy(text),
                *implicit_root,
            ),
            PathComponent::RootDir => PathComponent::RootDir,
            PathComponent::CurDir => PathComponent::CurDir,
            PathComponent::ParentDir => PathComponent::ParentDir,
            PathComponent::Normal(name) => PathComponent::Normal(bytes_copy(name)),
        }
    }

    /// Whether two components are equal.
    pub fn same(&self, other: &PathComponent) -> (res: bool)
        ensures
            res == (self@ == other@),
    {
        match (self, other) {
            (PathComponent::Prefix(a, x), PathComponent::Prefix(b, y)) => *x == *y && bytes_equal(
                a,
                b,
            ),
            (PathComponent::RootDir, PathComponent::RootDir) => true,
            (PathComponent::CurDir, PathComponent::CurDir) => true,
            (PathComponent::ParentDir, PathComponent::ParentDir) => true,
            (PathComponent::Normal(a), PathComponent::Normal(b)) => bytes_equal(a, b),
            _ => false,
        }
    }
}

impl ScriptPath {
    /// An empty path.
    pub fn empty() -> (out: ScriptPath)
        ensures
            out@ == Seq::<Comp>::empty(),
    {
        let out = ScriptPath { components: Vec::new() };
        assert(out@ =~= Seq::<Comp>::empty());
        out
    }

    /// Appends one component.
    pub fn push_component(&mut self, c: PathComponent)
        ensures
            final(self)@ == old(self)@.push(c@),
    {
        self.components.push(c);
        assert(self@ =~= old(self)@.push(c@));
    }

    /// The components from index `start` on.
    fn components_from(&self, start: usize) -> (out: ScriptPath)
        requires
            start <= self.components@.len(),
        ensures
            out@ == self@.skip(start as int),
    {
        let mut out = ScriptPath::empty();
        let mut i: usize = start;
        while i < self.components.len()
            invariant
                start <= i <= self.components@.len(),
                self@.len() == self.components@.len(),
                out@ =~= self@.subrange(start as int, i as int),
            decreases self.components@.len() - i,
        {
            out.push_component(self.components[i].copy());
            i = i + 1;
        }
        out
    }

    /// A copy of the path.
    pub fn copy(&self) -> (out: ScriptPath)
        ensures
            out@ == self@,
    {
        let out = self.components_from(0);
        assert(self@.skip(0) =~= self@);
        out
    }

    /// Whether two paths have the same components.
    pub fn same(&self, other: &ScriptPath) -> (res: bool)
        ensures
            res == (self@ == other@),
    {
        assert(self@.len() == self.components@.len() && other@.len() == other.components@.len());
        if self.components.len() != other.components.len() {
            return false;
        }
        let mut i: usize = 0;
        while i < self.components.len()
            invariant
                self.components@.len() == other.components@.len(),
                self@.len() == self.components@.len(),
                other@.len() == other.components@.len(),
                i <= self.components@.len(),
                forall|j: int| 0 <= j < i ==> self@[j] == other@[j],
            decreases self.components@.len() - i,
        {
            if !self.components[i].same(&other.components[i]) {
                assert(self@[i as int] != other@[i as int]);
                return false;
            }
            i = i + 1;
        }
        assert(self@ =~= other@);
        true
    }

    /// `Path::is_absolute` on Windows.
    pub fn is_absolute(&self) -> (res: bool)
        ensures
            res == is_absolute(self@),
    {
        if self.components.len() == 0 {
            return false;
        }
        match &self.components[0] {
            PathComponent::Prefix(_, implicit_root) => *implicit_root || (self.components.len() >= 2
                && matches!(self.components[1], PathComponent::RootDir)),
            _ => false,
        }
    }

    /// Whether `Path::parent` gives `None` or an empty path.
    pub fn has_no_parent_dir(&self) -> (res: bool)
        ensures
            res == has_no_parent_dir(self@),
    {
        let n = self.components.len();
        if n <= 1 {
            return true;
        }
        match &self.components[n - 1] {
            PathComponent::Prefix(_, _) => true,
            PathComponent::RootDir => true,
            _ => false,
        }
    }

    /// `Path::file_name`.
    pub fn file_name(&self) -> (res: Option<Vec<u8>>)
        ensures
            match res {
                Some(name) => file_name(self@) == Some(name@),
                None => file_name(self@) is None,
            },
    {
        let n = self.components.len();
        if n == 0 {
            return None;
        }
        match &self.components[n - 1] {
            PathComponent::Normal(name) => Some(bytes_copy(name)),
            _ => None,
        }
    }

    /// Whether the path names a Lua script.
    pub fn is_lua_script(&self) -> (res: bool)
        ensures
            res == is_lua_script(self@),
    {
        let name = match self.file_name() {
            Some(name) => name,
            None => return false,
        };
        match file_extension(&name) {
            Some(ext) => ext.len() == 3 && ascii_lower_byte(ext[0]) == 0x6C && ascii_lower_byte(
                ext[1],
            ) == 0x75 && ascii_lower_byte(ext[2]) == 0x61,
            None => false,
        }
    }

    /// `Path::strip_prefix`.
    pub fn strip_prefix(&self, base: &ScriptPath) -> (res: Option<ScriptPath>)
        ensures
            match res {
                Some(rest) => strip_prefix(self@, base@) == Some(rest@),
                None => strip_prefix(self@, base@) is None,
            },
    {
        let n = base.components.len();
        if n > self.components.len() {
            return None;
        }
        let mut i: usize = 0;
        while i < n
            invariant
                n == base.components@.len(),
                n <= self.components@.len(),
                i <= n,
                forall|j: int| 0 <= j < i ==> self@[j] == base@[j],
            decreases n - i,
        {
            if !self.components[i].same(&base.components[i]) {
                assert(self@.take(n as int)[i as int] != base@[i as int]);
                return None;
            }
            i = i + 1;
        }
        assert(self@.take(n as int) =~= base@);
        Some(self.components_from(n))
    }

    /// The path followed by `other`: the components of both, in order.
    pub fn join(&self, other: &ScriptPath) -> (res: ScriptPath)
        ensures
            res@ == self@ + other@,
    {
        let mut out = self.copy();
        let mut i: usize = 0;
        while i < other.components.len()
            invariant
                i <= other.components@.len(),
                other@.len() == other.components@.len(),
                out@ =~= self@ + other@.take(i as int),
            decreases other.components@.len() - i,
        {
            out.push_component(other.components[i].copy());
            i = i + 1;
        }
        assert(other@.take(other@.len() as int) =~= other@);
        out
    }

}

/// ASCII lower case of one byte.
fn ascii_lower_byte(b: u8) -> (res: u8)
    ensures
        res == ascii_lower(b),
{
    if 0x41 <= b && b <= 0x5A {
        b + 0x20
    } else {
        b
    }
}

/// The extension of a file name.
fn file_extension(name: &Vec<u8>) -> (res: Option<Vec<u8>>)
    ensures
        match res {
            Some(ext) => extension(name@) == Some(ext@),
            None => extension(name@) is None,
        },
{
    let n = name.len();
    if n == 2 && name[0] == 0x2E && name[1] == 0x2E {
        assert(name@ =~= seq![0x2Eu8, 0x2Eu8]);
        return None;
    }
    let mut i: usize = n;
    assert(name@.take(n as int) =~= name@);
    while i > 0 && name[i - 1] != 0x2E
        invariant
            n == name@.len(),
            i <= n,
            last_index_of(name@, 0x2E) == last_index_of(name@.take(i as int), 0x2E),
        decreases i,
    {
        assert(name@.take(i as int).drop_last() =~= name@.take(i - 1));
        assert(name@.take(i as int).last() == name@[i - 1]);
        i = i - 1;
    }
    proof {
        if i > 0 {
            assert(name@.take(i as int).last() == name@[i - 1]);
        }
    }
    if i <= 1 {
        None
    } else {
        Some(bytes_range(name, i, n))
    }
}

} // verus!
