//! Paths as text: what they are made of, and how they are put together.
use crate::text::{joined_by, same, split, split_on, starts_with, texts};
use vstd::prelude::*;

verus! {

/// What a path is made of: whether it starts at the root, and the names on the way.
pub struct PathView {
    pub rooted: bool,
    pub names: Seq<Seq<char>>,
}

/// A path taken apart.
pub struct Parts {
    pub rooted: bool,
    pub names: Vec<String>,
}

impl View for Parts {
    type V = PathView;

    open spec fn view(&self) -> PathView {
        PathView { rooted: self.rooted, names: texts(self.names@) }
    }
}

/// Whether a path starts at the root.
pub open spec fn rooted(path: Seq<char>) -> bool {
    "/"@.is_prefix_of(path)
}

/// The pieces that name something: empty ones and `.` do not, except a leading `.` of a path
/// that does not start at the root.
pub open spec fn named(pieces: Seq<Seq<char>>, from_root: bool) -> Seq<Seq<char>>
    decreases pieces.len(),
{
    if pieces.len() == 0 {
        Seq::empty()
    } else {
        let before = named(pieces.drop_last(), from_root);
        let piece = pieces.last();
        if piece.len() == 0 || (piece == "."@ && (from_root || pieces.len() > 1)) {
            before
        } else {
            before.push(piece)
        }
    }
}

/// What the text of a path is made of.
pub open spec fn parts_of(path: Seq<char>) -> PathView {
    PathView { rooted: rooted(path), names: named(split_on(path, '/'), rooted(path)) }
}

impl PathView {
    /// The text of a path.
    pub open spec fn text(self) -> Seq<char> {
        (if self.rooted {
            "/"@
        } else {
            ""@
        }) + joined_by(self.names, "/"@)
    }

    /// Whether this path lies strictly inside the other.
    pub open spec fn inside(self, other: PathView) -> bool {
        &&& self.rooted == other.rooted
        &&& other.names.len() < self.names.len()
        &&& other.names.is_prefix_of(self.names)
    }

    /// The path without its last name.
    pub open spec fn parent(self) -> Option<PathView> {
        if self.names.len() == 0 {
            None
        } else {
            Some(PathView { rooted: self.rooted, names: self.names.drop_last() })
        }
    }

    /// The last name, where it is a proper one.
    pub open spec fn file_name(self) -> Option<Seq<char>> {
        if self.names.len() == 0 || self.names.last() == ".."@ || self.names.last() == "."@ {
            None
        } else {
            Some(self.names.last())
        }
    }

    /// The path with `.` left out and each `..` taking back the name before it.
    pub open spec fn normal(self) -> PathView {
        PathView { rooted: self.rooted, names: folded(self.names) }
    }
}

/// Names with `.` left out and each `..` taking back the name before it.
pub open spec fn folded(names: Seq<Seq<char>>) -> Seq<Seq<char>>
    decreases names.len(),
{
    if names.len() == 0 {
        Seq::empty()
    } else {
        let before = folded(names.drop_last());
        if names.last() == "."@ {
            before
        } else if names.last() == ".."@ {
            if before.len() == 0 {
                before
            } else {
                before.drop_last()
            }
        } else {
            before.push(names.last())
        }
    }
}

/// Takes a path apart.
pub fn parts(path: &str) -> (r: Parts)
    ensures
        r@ == parts_of(path@),
{
    let from_root = starts_with(path, "/");
    let pieces = split(path, '/');
    let mut names: Vec<String> = Vec::new();
    let mut i: usize = 0;
    proof {
        assert(texts(names@) =~= Seq::empty());
    }
    while i < pieces.len()
        invariant
            i <= pieces.len(),
            texts(names@) == named(texts(pieces@).take(i as int), from_root),
        decreases pieces.len() - i,
    {
        let piece = &pieces[i];
        proof {
            assert(texts(pieces@).take(i + 1).drop_last() =~= texts(pieces@).take(i as int));
            assert(texts(pieces@).take(i + 1).last() == piece@);
        }
        let skip = piece.as_str().is_empty() || (same(piece, ".") && (from_root || i > 0));
        if !skip {
            let ghost before = names@;
            names.push(piece.clone());
            proof {
                assert(texts(names@) =~= texts(before).push(piece@));
            }
        }
        i += 1;
    }
    proof {
        assert(texts(pieces@).take(i as int) =~= texts(pieces@));
    }
    Parts { rooted: from_root, names }
}

impl Parts {
    /// The text of a path.
    pub fn text(&self) -> (r: String)
        ensures
            r@ == self@.text(),
    {
        let mut out = (if self.rooted {
            "/"
        } else {
            ""
        }).to_owned();
        out.append(&crate::text::join(&self.names, "/"));
        out
    }

    /// Whether two paths are made of the same names.
    pub fn same_as(&self, other: &Parts) -> (r: bool)
        ensures
            r == (self@ == other@),
    {
        if self.rooted != other.rooted || self.names.len() != other.names.len() {
            assert(texts(self.names@).len() == self.names.len());
            assert(texts(other.names@).len() == other.names.len());
            return false;
        }
        let r = agree(&self.names, &other.names, self.names.len());
        proof {
            assert(texts(self.names@).take(self.names.len() as int) =~= texts(self.names@));
            assert(texts(other.names@).take(self.names.len() as int) =~= texts(other.names@));
        }
        r
    }

    /// Whether this path lies strictly inside the other.
    pub fn inside(&self, other: &Parts) -> (r: bool)
        ensures
            r == self@.inside(other@),
    {
        if self.rooted != other.rooted || other.names.len() >= self.names.len() {
            return false;
        }
        let n: usize = other.names.len();
        proof {
            assert(texts(other.names@).take(n as int) =~= texts(other.names@));
            assert(texts(self.names@).take(n as int) =~= texts(self.names@).subrange(0, n as int));
        }
        agree(&other.names, &self.names, n)
    }

    /// The path without its last name.
    pub fn parent(&self) -> (r: Option<Parts>)
        ensures
            match r {
                Some(p) => self@.parent() == Some(p@),
                None => self@.parent() is None,
            },
    {
        if self.names.len() == 0 {
            return None;
        }
        let mut names: Vec<String> = Vec::new();
        let mut i: usize = 0;
        while i < self.names.len() - 1
            invariant
                self.names.len() > 0,
                i <= self.names.len() - 1,
                names@ == self.names@.take(i as int),
            decreases self.names.len() - i,
        {
            names.push(self.names[i].clone());
            i += 1;
        }
        proof {
            assert(texts(names@) =~= texts(self.names@).drop_last());
        }
        Some(Parts { rooted: self.rooted, names })
    }

    /// The last name, where it is a proper one.
    pub fn file_name(&self) -> (r: Option<String>)
        ensures
            match r {
                Some(name) => self@.file_name() == Some(name@),
                None => self@.file_name() is None,
            },
    {
        if self.names.len() == 0 {
            return None;
        }
        let last = &self.names[self.names.len() - 1];
        proof {
            assert(texts(self.names@).last() == last@);
        }
        if same(last, "..") || same(last, ".") {
            None
        } else {
            Some(last.clone())
        }
    }

    /// The path with `.` left out and each `..` taking back the name before it.
    pub fn normal(&self) -> (r: Parts)
        ensures
            r@ == self@.normal(),
    {
        let mut names: Vec<String> = Vec::new();
        let mut i: usize = 0;
        proof {
            assert(texts(names@) =~= Seq::empty());
        }
        while i < self.names.len()
            invariant
                i <= self.names.len(),
                texts(names@) == folded(texts(self.names@).take(i as int)),
            decreases self.names.len() - i,
        {
            let name = &self.names[i];
            let ghost before = names@;
            proof {
                assert(texts(self.names@).take(i + 1).drop_last() =~= texts(self.names@).take(
                    i as int,
                ));
                assert(texts(self.names@).take(i + 1).last() == name@);
            }
            if !same(name, ".") {
                if same(name, "..") {
                    if names.len() > 0 {
                        names.pop();
                        proof {
                            assert(texts(names@) =~= texts(before).drop_last());
                        }
                    } else {
                        assert(texts(before).len() == 0);
                    }
                } else {
                    names.push(name.clone());
                    proof {
                        assert(texts(names@) =~= texts(before).push(name@));
                    }
                }
            }
            i += 1;
        }
        proof {
            assert(texts(self.names@).take(i as int) =~= texts(self.names@));
        }
        Parts { rooted: self.rooted, names }
    }
}

/// Whether two lists agree on their first `n` texts.
fn agree(a: &Vec<String>, b: &Vec<String>, n: usize) -> (r: bool)
    requires
        n <= a.len(),
        n <= b.len(),
    ensures
        r == (texts(a@).take(n as int) == texts(b@).take(n as int)),
{
    let mut i: usize = 0;
    while i < n
        invariant
            i <= n <= a.len(),
            n <= b.len(),
            forall|j: int| 0 <= j < i ==> a@[j]@ == b@[j]@,
        decreases n - i,
    {
        if !same(&a[i], &b[i]) {
            assert(texts(a@).take(n as int)[i as int] == a@[i as int]@);
            assert(texts(b@).take(n as int)[i as int] == b@[i as int]@);
            return false;
        }
        i += 1;
    }
    assert(texts(a@).take(n as int) =~= texts(b@).take(n as int));
    true
}

/// Whether a path starts at the root.
pub fn is_absolute(path: &str) -> (r: bool)
    ensures
        r == rooted(path@),
{
    starts_with(path, "/")
}

/// The path of `name` in the directory `base`; `name` itself where it starts at the root.
pub open spec fn joined(base: Seq<char>, name: Seq<char>) -> Seq<char> {
    if rooted(name) {
        name
    } else if base.len() == 0 || base.last() == '/' {
        base + name
    } else {
        base + "/"@ + name
    }
}

/// The path of `name` in the directory `base`.
pub fn join(base: &str, name: &str) -> (r: String)
    ensures
        r@ == joined(base@, name@),
{
    if is_absolute(name) {
        return name.to_owned();
    }
    let n: usize = base.unicode_len();
    if n == 0 || base.get_char(n - 1) == '/' {
        base.to_owned().concat(name)
    } else {
        base.to_owned().concat("/").concat(name)
    }
}

}
