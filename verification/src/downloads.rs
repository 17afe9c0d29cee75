//! Single-writer guard for partial downloads.
use vstd::prelude::*;
use crate::text::{chars_of, owned, push_char};

verus! {

/// The text of each path.
pub open spec fn path_texts(s: Seq<String>) -> Seq<Seq<char>> {
    s.map_values(|p: String| p@)
}

// ───── Paths as they compare ─────

/// The text of a path after reading `p`: the components written so far
/// (a leading `/` for a rooted path, then the components joined by `/`),
/// the component being read, and whether that is the path's first.
pub open spec fn path_scan(p: Seq<char>) -> (Seq<char>, Seq<char>, bool)
    decreases p.len(),
{
    if p.len() == 0 {
        (Seq::empty(), Seq::empty(), true)
    } else {
        let (out, seg, first) = path_scan(p.drop_last());
        if p.last() == '/' {
            let flushed = flush_component(out, seg, first);
            (if p.len() == 1 { seq!['/'] } else { flushed }, Seq::empty(), false)
        } else {
            (out, seg.push(p.last()), first)
        }
    }
}

/// Adds a component: empty components (repeated or trailing separators)
/// and `.` are dropped, except a `.` that begins the path.
pub open spec fn flush_component(out: Seq<char>, seg: Seq<char>, first: bool) -> Seq<char> {
    if seg.len() == 0 || (seg == seq!['.'] && !first) {
        out
    } else if out.len() == 0 || out == seq!['/'] {
        out + seg
    } else {
        out + seq!['/'] + seg
    }
}

/// The text by which two paths compare equal exactly when they have the
/// same components (a root, a leading `.`, and the names between
/// separators), as `std::path::Path` compares them on Unix: `a//b`, `a/./b`
/// and `a/b/` all read as `a/b`.
pub open spec fn path_key(p: Seq<char>) -> Seq<char> {
    let (out, seg, first) = path_scan(p);
    flush_component(out, seg, first)
}

fn flush_into(out: &mut Vec<char>, seg: &Vec<char>, first: bool)
    ensures
        final(out)@ == flush_component(old(out)@, seg@, first),
{
    let dot = seg.len() == 1 && seg[0] == '.';
    proof {
        assert(dot <==> seg@ == seq!['.']) by {
            if seg@ == seq!['.'] { assert(seg@.len() == 1 && seg@[0] == '.'); }
            if dot { assert(seg@ =~= seq!['.']); }
        }
        let rooted = out.len() == 1 && out@[0] == '/';
        assert(rooted <==> out@ == seq!['/']) by {
            if out@ == seq!['/'] { assert(out@.len() == 1 && out@[0] == '/'); }
            if rooted { assert(out@ =~= seq!['/']); }
        }
    }
    if seg.len() == 0 || (dot && !first) {
        return;
    }
    if !(out.len() == 0 || (out.len() == 1 && out[0] == '/')) {
        out.push('/');
    }
    let ghost start = out@;
    let mut i: usize = 0;
    while i < seg.len()
        invariant
            i <= seg@.len(),
            out@ == start + seg@.subrange(0, i as int),
        decreases seg@.len() - i,
    {
        out.push(seg[i]);
        i = i + 1;
        assert(out@ =~= start + seg@.subrange(0, i as int));
    }
    assert(seg@.subrange(0, i as int) =~= seg@);
}

/// The text of `path` as paths compare.
pub fn path_key_text(path: &str) -> (r: String)
    ensures
        r@ == path_key(path@),
{
    let chars = chars_of(path);
    let mut out: Vec<char> = Vec::new();
    let mut seg: Vec<char> = Vec::new();
    let mut first = true;
    let mut i: usize = 0;
    while i < chars.len()
        invariant
            chars@ == path@,
            i <= chars@.len(),
            path_scan(chars@.subrange(0, i as int)) == (out@, seg@, first),
        decreases chars@.len() - i,
    {
        let c = chars[i];
        proof { assert(chars@.subrange(0, i + 1).drop_last() =~= chars@.subrange(0, i as int)); }
        if c == '/' {
            flush_into(&mut out, &seg, first);
            if i == 0 {
                out = vec!['/'];
            }
            seg = Vec::new();
            first = false;
        } else {
            seg.push(c);
        }
        i = i + 1;
    }
    proof { assert(chars@.subrange(0, i as int) =~= path@); }
    flush_into(&mut out, &seg, first);
    let mut text = String::new();
    let mut j: usize = 0;
    while j < out.len()
        invariant
            j <= out@.len(),
            text@ == out@.subrange(0, j as int),
        decreases out@.len() - j,
    {
        push_char(&mut text, out[j]);
        j = j + 1;
        assert(text@ =~= out@.subrange(0, j as int));
    }
    assert(out@.subrange(0, j as int) =~= out@);
    text
}

/// The local paths that downloads are currently appending to.
pub struct ActiveDownloads {
    paths: Vec<String>,
}

impl View for ActiveDownloads {
    type V = Set<Seq<char>>;

    closed spec fn view(&self) -> Set<Seq<char>> {
        path_texts(self.paths@).to_set()
    }
}

impl ActiveDownloads {
    pub fn new() -> (r: Self)
        ensures
            r@ == Set::<Seq<char>>::empty(),
    {
        let r = ActiveDownloads { paths: Vec::new() };
        assert(r@ =~= Set::<Seq<char>>::empty());
        r
    }

    fn position(&self, path: &String) -> (r: Option<usize>)
        ensures
            r is None ==> !self@.contains(path@),
            r matches Some(i) ==> i < self.paths@.len() && self.paths@[i as int]@ == path@,
    {
        let mut i: usize = 0;
        while i < self.paths.len()
            invariant
                i <= self.paths@.len(),
                forall|j: int| 0 <= j < i ==> self.paths@[j]@ != path@,
            decreases self.paths@.len() - i,
        {
            if self.paths[i] == *path {
                return Some(i);
            }
            i = i + 1;
        }
        proof {
            if self@.contains(path@) {
                let s = path_texts(self.paths@);
                let k = choose|k: int| 0 <= k < s.len() && #[trigger] s[k] == path@;
                assert(self.paths@[k]@ == path@);
            }
        }
        None
    }

    fn contains_key(&self, path: &String) -> (r: bool)
        ensures
            r == self@.contains(path@),
    {
        match self.position(path) {
            Some(i) => {
                proof { assert(path_texts(self.paths@)[i as int] == path@); }
                true
            },
            None => false,
        }
    }

    fn insert_key(&mut self, path: String) -> (r: bool)
        ensures
            r == !old(self)@.contains(path@),
            final(self)@ == old(self)@.insert(path@),
    {
        if self.contains_key(&path) {
            proof { assert(old(self)@.insert(path@) =~= old(self)@); }
            return false;
        }
        let ghost before = self.paths@;
        let ghost p = path@;
        self.paths.push(path);
        proof {
            assert(path_texts(self.paths@) =~= path_texts(before).push(p));
            assert(self@ =~= old(self)@.insert(p)) by {
                assert forall|x: Seq<char>| self@.contains(x) <==> old(self)@.insert(p).contains(x) by {
                    let s = path_texts(self.paths@);
                    let b = path_texts(before);
                    if s.contains(x) && x != p {
                        let k = choose|k: int| 0 <= k < s.len() && #[trigger] s[k] == x;
                        assert(k < b.len());
                        assert(b[k] == x);
                    }
                    if b.contains(x) {
                        let k = choose|k: int| 0 <= k < b.len() && #[trigger] b[k] == x;
                        assert(s[k] == x);
                    }
                    if x == p {
                        assert(s[s.len() - 1] == p);
                    }
                }
            }
        }
        true
    }

    fn remove_key(&mut self, path: &String)
        ensures
            final(self)@ == old(self)@.remove(path@),
    {
        loop
            invariant
                self@.remove(path@) == old(self)@.remove(path@),
            ensures
                self@ == old(self)@.remove(path@),
            decreases self.paths@.len(),
        {
            match self.position(path) {
                None => {
                    proof { assert(self@.remove(path@) =~= self@); }
                    break;
                },
                Some(i) => {
                    let ghost before = self.paths@;
                    let ghost set_before = self@;
                    self.paths.remove(i);
                    proof {
                        lemma_remove_keeps_others(before, i as int);
                        let b = path_texts(before);
                        let r = path_texts(before.remove(i as int));
                        assert forall|x: Seq<char>| x != path@ && #[trigger] b.contains(x) implies r.contains(x) by {
                            let k = choose|k: int| 0 <= k < b.len() && #[trigger] b[k] == x;
                            assert(k != i);
                            if k < i {
                                assert(r[k] == x);
                            } else {
                                assert(r[k - 1] == x);
                            }
                        }
                        assert(self@.remove(path@) =~= set_before.remove(path@));
                    }
                },
            }
        }
    }
}

impl ActiveDownloads {
    /// Whether a download is appending to `path` (compared as paths are:
    /// by their components).
    pub fn contains(&self, path: &String) -> (r: bool)
        ensures
            r == self@.contains(path_key(path@)),
    {
        self.contains_key(&path_key_text(path.as_str()))
    }

    /// Marks `path` as being downloaded unless another download holds the
    /// same path.
    pub fn try_insert(&mut self, path: String) -> (r: bool)
        ensures
            r == !old(self)@.contains(path_key(path@)),
            final(self)@ == old(self)@.insert(path_key(path@)),
    {
        self.insert_key(path_key_text(path.as_str()))
    }

    /// Releases `path` (when its download ends).
    pub fn remove(&mut self, path: &String)
        ensures
            final(self)@ == old(self)@.remove(path_key(path@)),
    {
        self.remove_key(&path_key_text(path.as_str()))
    }
}

proof fn lemma_remove_keeps_others(before: Seq<String>, i: int)
    requires
        0 <= i < before.len(),
    ensures
        forall|x: Seq<char>| #[trigger] path_texts(before.remove(i)).contains(x)
            ==> path_texts(before).contains(x),
{
    assert forall|x: Seq<char>| #[trigger] path_texts(before.remove(i)).contains(x)
        implies path_texts(before).contains(x) by {
        let r = path_texts(before.remove(i));
        let k = choose|k: int| 0 <= k < r.len() && #[trigger] r[k] == x;
        if k < i {
            assert(path_texts(before)[k] == x);
        } else {
            assert(path_texts(before)[k + 1] == x);
        }
    }
}

/// Exclusive claim on a partial-download path.
pub struct DownloadGuard {
    path: String,
}

impl DownloadGuard {
    /// Claims `path` for one download; refused while another download
    /// holds it.
    pub fn acquire(active: &mut ActiveDownloads, path: String) -> (r: Result<Self, String>)
        ensures
            final(active)@ == old(active)@.insert(path_key(path@)),
            r is Ok <==> !old(active)@.contains(path_key(path@)),
            r matches Ok(g) ==> g.path()@ == path@,
            r matches Err(e) ==> e@ == "This file is already downloading"@,
    {
        let claimed = path.clone();
        if !active.try_insert(claimed) {
            return Err(owned("This file is already downloading"));
        }
        Ok(DownloadGuard { path })
    }

    pub closed spec fn path(self) -> String {
        self.path
    }

    /// The claimed path.
    pub fn path_str(&self) -> (r: &str)
        ensures
            r@ == self.path()@,
    {
        self.path.as_str()
    }

    /// Releases the claim.
    pub fn release(self, active: &mut ActiveDownloads)
        ensures
            final(active)@ == old(active)@.remove(path_key(self.path()@)),
    {
        active.remove(&self.path);
    }
}

/// Releasing a claim that was just acquired leaves the set of active
/// downloads as it was before the claim.
pub proof fn lemma_release_undoes_acquire(before: Set<Seq<char>>, path: Seq<char>)
    requires
        !before.contains(path),
    ensures
        before.insert(path).remove(path) == before,
{
    assert(before.insert(path).remove(path) =~= before);
}

} // verus!
