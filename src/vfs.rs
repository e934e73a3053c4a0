//! In-memory folders and files, addressed by `/`-separated paths.

use vstd::prelude::*;
use vstd::string::*;
use crate::text::{join3, owned};

verus! {

broadcast use vstd::std_specs::vec::group_vec_axioms;

/// File representation in virtual file system
#[derive(Debug, PartialEq, Eq)]
pub enum VFile {
    /// Text file
    Text(String),
    /// Binary file
    Binary(Vec<u8>),
}

pub enum VFileView {
    Text(Seq<char>),
    Binary(Seq<u8>),
}

impl View for VFile {
    type V = VFileView;

    open spec fn view(&self) -> VFileView {
        match self {
            VFile::Text(s) => VFileView::Text(s@),
            VFile::Binary(b) => VFileView::Binary(b@),
        }
    }
}

impl Default for VFile {
    fn default() -> (r: Self)
        ensures
            r@ == VFileView::Text(Seq::empty()),
    {
        VFile::Text(String::new())
    }
}

impl Clone for VFile {
    fn clone(&self) -> Self {
        self.duplicate()
    }
}

impl VFile {
    /// A text file with the given content.
    pub fn text(s: &str) -> (r: Self)
        ensures
            r@ == VFileView::Text(s@),
    {
        VFile::Text(owned(s))
    }

    /// A copy of this file.
    pub fn duplicate(&self) -> (r: Self)
        ensures
            r@ == self@,
    {
        match self {
            VFile::Text(s) => VFile::Text(s.clone()),
            VFile::Binary(b) => {
                let c = b.clone();
                assert(c@ =~= b@);
                VFile::Binary(c)
            },
        }
    }

    /// Get the text content of the file.
    pub fn as_text(&self) -> (r: Option<&str>)
        ensures
            self@ is Text ==> (r matches Some(t) && t@ == self@->Text_0),
            self@ is Binary ==> r is None,
    {
        match self {
            VFile::Text(text) => Some(text.as_str()),
            VFile::Binary(_) => None,
        }
    }

    /// Get the binary content of the file; a text file gives its UTF-8 bytes.
    pub fn as_bytes(&self) -> (r: &[u8])
        ensures
            self@ is Binary ==> r@ == self@->Binary_0,
            self@ is Text ==> r@ == vstd::utf8::encode_utf8(self@->Text_0),
    {
        match self {
            VFile::Binary(data) => data.as_slice(),
            VFile::Text(text) => text.as_str().as_bytes(),
        }
    }
}

/// Folder representation in virtual file system; the first entry of a name
/// is the one that counts.
#[derive(Debug, PartialEq, Eq)]
pub struct VFolder {
    folders: Vec<(String, VFolder)>,
    files: Vec<(String, VFile)>,
}

/// The index of the first entry named `name` at or after `i`, or -1.
pub open spec fn index_of<T>(s: Seq<(String, T)>, name: Seq<char>, i: int) -> int
    decreases s.len() - i,
{
    if i < 0 || i >= s.len() {
        -1
    } else if s[i].0@ == name {
        i
    } else {
        index_of(s, name, i + 1)
    }
}

/// The index of the first `/` at or after `i`, or -1.
pub open spec fn slash_from(p: Seq<char>, i: int) -> int
    decreases p.len() - i,
{
    if i < 0 || i >= p.len() {
        -1
    } else if p[i] == '/' {
        i
    } else {
        slash_from(p, i + 1)
    }
}

/// The rest of a path after its first segment; none where there is no
/// `/` or nothing follows it.
pub open spec fn path_tail(p: Seq<char>) -> Option<Seq<char>> {
    let k = slash_from(p, 0);
    if k < 0 || k + 1 >= p.len() {
        None
    } else {
        Some(p.subrange(k + 1, p.len() as int))
    }
}

/// The first segment of a path that has a tail.
pub open spec fn path_head(p: Seq<char>) -> Seq<char> {
    p.subrange(0, slash_from(p, 0))
}

proof fn lemma_slash_from(p: Seq<char>, i: int)
    requires
        0 <= i,
    ensures
        slash_from(p, i) == -1 || (i <= slash_from(p, i) < p.len() && p[slash_from(p, i)] == '/'),
    decreases p.len() - i,
{
    if i < p.len() && p[i] != '/' {
        lemma_slash_from(p, i + 1);
    }
}

proof fn lemma_index_of<T>(s: Seq<(String, T)>, name: Seq<char>, i: int)
    requires
        0 <= i,
    ensures
        index_of(s, name, i) == -1 || (i <= index_of(s, name, i) < s.len() && s[index_of(s, name, i)].0@
            == name),
    decreases s.len() - i,
{
    if i < s.len() && s[i].0@ != name {
        lemma_index_of(s, name, i + 1);
    }
}

/// Splits a path at its first `/`.
fn split_path(path: &str) -> (r: (&str, Option<&str>))
    ensures
        r.1 matches Some(t) ==> path_tail(path@) == Some(t@) && r.0@ == path_head(path@),
        r.1 is None ==> path_tail(path@) is None && r.0@ == path@,
{
    let n = path.unicode_len();
    let mut i: usize = 0;
    while i < n && path.get_char(i) != '/'
        invariant
            n == path@.len(),
            i <= n,
            slash_from(path@, 0) == slash_from(path@, i as int),
        decreases n - i,
    {
        i = i + 1;
    }
    if i >= n || i == n - 1 {
        (path, None)
    } else {
        (path.substring_char(0, i), Some(path.substring_char(i + 1, n)))
    }
}

/// Index of the first entry named `name`.
fn find<T>(entries: &Vec<(String, T)>, name: &str) -> (r: Option<usize>)
    ensures
        r matches Some(k) ==> index_of(entries@, name@, 0) == k && k < entries@.len() && entries@[k as int].0@
            == name@,
        r is None ==> index_of(entries@, name@, 0) == -1,
{
    let mut i: usize = 0;
    while i < entries.len()
        invariant
            i <= entries@.len(),
            index_of(entries@, name@, 0) == index_of(entries@, name@, i as int),
        decreases entries.len() - i,
    {
        if same_str(entries[i].0.as_str(), name) {
            return Some(i);
        }
        i = i + 1;
    }
    None
}

fn same_str(a: &str, b: &str) -> (r: bool)
    ensures
        r == (a@ == b@),
{
    let n = a.unicode_len();
    if n != b.unicode_len() {
        return false;
    }
    let mut i: usize = 0;
    while i < n
        invariant
            n == a@.len(),
            n == b@.len(),
            i <= n,
            forall|j: int| 0 <= j < i ==> a@[j] == b@[j],
        decreases n - i,
    {
        if a.get_char(i) != b.get_char(i) {
            return false;
        }
        i = i + 1;
    }
    assert(a@ =~= b@);
    true
}

/// The file at `path` in `f`.
pub open spec fn file_at(f: VFolder, path: Seq<char>) -> Option<VFileView>
    decreases path.len(),
{
    match path_tail(path) {
        Some(t) => {
            let k = index_of(f.folder_entries(), path_head(path), 0);
            if 0 <= k < f.folder_entries().len() && t.len() < path.len() {
                file_at(f.folder_entries()[k].1, t)
            } else {
                None
            }
        },
        None => {
            let k = index_of(f.file_entries(), path, 0);
            if 0 <= k < f.file_entries().len() {
                Some(f.file_entries()[k].1@)
            } else {
                None
            }
        },
    }
}

/// The folder at `path` in `f`.
pub open spec fn folder_at(f: VFolder, path: Seq<char>) -> Option<VFolder>
    decreases path.len(),
{
    match path_tail(path) {
        Some(t) => {
            let k = index_of(f.folder_entries(), path_head(path), 0);
            if 0 <= k < f.folder_entries().len() && t.len() < path.len() {
                folder_at(f.folder_entries()[k].1, t)
            } else {
                None
            }
        },
        None => {
            let k = index_of(f.folder_entries(), path, 0);
            if 0 <= k < f.folder_entries().len() {
                Some(f.folder_entries()[k].1)
            } else {
                None
            }
        },
    }
}

impl Default for VFolder {
    fn default() -> (r: Self)
        ensures
            r.file_count() == 0,
            r.folder_count() == 0,
    {
        VFolder::new()
    }
}

impl Clone for VFolder {
    fn clone(&self) -> Self {
        self.duplicate()
    }
}

impl VFolder {
    /// The subfolders directly in the folder, by name.
    pub closed spec fn folder_entries(&self) -> Seq<(String, VFolder)> {
        self.folders@
    }

    /// The files directly in the folder, by name.
    pub closed spec fn file_entries(&self) -> Seq<(String, VFile)> {
        self.files@
    }

    /// The number of files directly in the folder.
    pub closed spec fn file_count(&self) -> nat {
        self.files@.len()
    }

    /// The number of folders directly in the folder.
    pub closed spec fn folder_count(&self) -> nat {
        self.folders@.len()
    }

    /// Create a new, empty virtual folder.
    pub fn new() -> (r: Self)
        ensures
            r.file_count() == 0,
            r.folder_count() == 0,
    {
        VFolder { folders: Vec::new(), files: Vec::new() }
    }

    /// A copy of this folder.
    pub fn duplicate(&self) -> (r: Self)
        ensures
            r.file_count() == self.file_count(),
            r.folder_count() == self.folder_count(),
        decreases self,
    {
        let mut folders: Vec<(String, VFolder)> = Vec::new();
        let mut i: usize = 0;
        while i < self.folders.len()
            invariant
                i <= self.folders@.len(),
                folders@.len() == i,
            decreases self.folders.len() - i,
        {
            assert(decreases_to!(self => self.folders@[i as int].1));
            let sub = self.folders[i].1.duplicate();
            folders.push((self.folders[i].0.clone(), sub));
            i = i + 1;
        }
        let mut files: Vec<(String, VFile)> = Vec::new();
        let mut j: usize = 0;
        while j < self.files.len()
            invariant
                j <= self.files@.len(),
                files@.len() == j,
            decreases self.files.len() - j,
        {
            files.push((self.files[j].0.clone(), self.files[j].1.duplicate()));
            j = j + 1;
        }
        VFolder { folders, files }
    }

    /// Get all direct subfolders in the folder.
    pub fn get_folders(&self) -> (r: &Vec<(String, VFolder)>)
        ensures
            r@.len() == self.folder_count(),
            r@ == self.folder_entries(),
    {
        &self.folders
    }

    /// Get all direct files in the folder.
    pub fn get_files(&self) -> (r: &Vec<(String, VFile)>)
        ensures
            r@.len() == self.file_count(),
            r@ == self.file_entries(),
    {
        &self.files
    }

    /// Recursively add a new, empty folder to the folder.
    pub fn add_folder(&mut self, path: &str)
        ensures
            folder_at(*final(self), path@) is Some,
        decreases path@.len(), 1nat,
    {
        self.add_existing_folder(path, VFolder::new());
    }

    /// Recursively add an existing folder to the folder, replacing one of
    /// the same name.
    pub fn add_existing_folder(&mut self, path: &str, folder: VFolder)
        ensures
            folder_at(*final(self), path@) == Some(folder),
            path_tail(path@) is None ==> forall|q: Seq<char>|
                q != path@ && path_tail(q) is None ==> #[trigger] folder_at(*final(self), q) == folder_at(*old(self), q),
        decreases path@.len(), 0nat,
    {
        let (head, tail) = split_path(path);
        match tail {
            Some(t) => {
                proof {
                    lemma_slash_from(path@, 0);
                }
                match find(&self.folders, head) {
                    Some(k) => {
                        let (name, mut sub) = self.folders.remove(k);
                        sub.add_existing_folder(t, folder);
                        self.folders.insert(k, (name, sub));
                        proof {
                            lemma_index_keep(old(self).folders@, self.folders@, head@, k as int);
                        }
                    },
                    None => {
                        let mut sub = VFolder::new();
                        sub.add_existing_folder(t, folder);
                        self.folders.push((owned(head), sub));
                        proof {
                            lemma_index_push(old(self).folders@, self.folders@, head@);
                        }
                    },
                }
            },
            None => {
                match find(&self.folders, path) {
                    Some(k) => {
                        self.folders.set(k, (owned(path), folder));
                        proof {
                            lemma_index_keep(old(self).folders@, self.folders@, path@, k as int);
                            assert forall|q: Seq<char>| q != path@ && path_tail(q) is None implies #[trigger] folder_at(*self, q)
                                == folder_at(*old(self), q) by {
                                lemma_index_other(old(self).folders@, self.folders@, path@, q, 0);
                                lemma_index_of(old(self).folders@, q, 0);
                            }
                        }
                    },
                    None => {
                        self.folders.push((owned(path), folder));
                        proof {
                            lemma_index_push(old(self).folders@, self.folders@, path@);
                            assert forall|q: Seq<char>| q != path@ && path_tail(q) is None implies #[trigger] folder_at(*self, q)
                                == folder_at(*old(self), q) by {
                                lemma_index_other(old(self).folders@, self.folders@, path@, q, 0);
                                lemma_index_of(old(self).folders@, q, 0);
                            }
                        }
                    },
                }
            },
        }
    }

    /// Recursively add a new file to the folder, replacing one at the same
    /// path.
    pub fn add_file(&mut self, path: &str, file: VFile)
        ensures
            file_at(*final(self), path@) == Some(file@),
            forall|p: Seq<char>| p != path@ ==> #[trigger] file_at(*final(self), p) == file_at(*old(self), p),
            path_tail(path@) is None ==> final(self).folder_entries() == old(self).folder_entries(),
        decreases path@.len(),
    {
        let ghost fv = file@;
        let (head, tail) = split_path(path);
        match tail {
            Some(t) => {
                proof {
                    lemma_slash_from(path@, 0);
                }
                match find(&self.folders, head) {
                    Some(k) => {
                        let (name, mut sub) = self.folders.remove(k);
                        let ghost sub0 = sub;
                        sub.add_file(t, file);
                        self.folders.insert(k, (name, sub));
                        proof {
                            lemma_index_keep(old(self).folders@, self.folders@, head@, k as int);
                            assert forall|p: Seq<char>| p != path@ implies #[trigger] file_at(*self, p) == file_at(*old(self), p) by {
                                lemma_other_folder(*old(self), *self, k as int, p, path@);
                                if path_tail(p) is Some && path_head(p) == head@ {
                                    lemma_same_split(p, path@);
                                }
                            }
                        }
                    },
                    None => {
                        let mut sub = VFolder::new();
                        let ghost empty = sub;
                        sub.add_file(t, file);
                        proof {
                            lemma_index_of(self.folders@, head@, 0);
                        }
                        self.folders.push((owned(head), sub));
                        proof {
                            lemma_index_push(old(self).folders@, self.folders@, head@);
                            assert forall|p: Seq<char>| p != path@ implies #[trigger] file_at(*self, p) == file_at(*old(self), p) by {
                                lemma_pushed_folder(*old(self), *self, p, path@);
                                if path_tail(p) is Some && path_head(p) == head@ {
                                    lemma_same_split(p, path@);
                                    let tp = path_tail(p)->Some_0;
                                    lemma_empty_has_no_file(empty, tp);
                                    assert(self.folders@[old(self).folders@.len() as int].1 == sub);
                                    assert(tp != t@);
                                    assert(file_at(sub, tp) == file_at(empty, tp));
                                    assert(file_at(*self, p) == file_at(sub, tp));
                                }
                            }
                        }
                    },
                }
            },
            None => {
                match find(&self.files, path) {
                    Some(k) => {
                        self.files.set(k, (owned(path), file));
                        proof {
                            lemma_index_keep(old(self).files@, self.files@, path@, k as int);
                            assert forall|p: Seq<char>| p != path@ implies #[trigger] file_at(*self, p) == file_at(*old(self), p) by {
                                lemma_other_file(*old(self), *self, p, path@);
                            }
                        }
                    },
                    None => {
                        self.files.push((owned(path), file));
                        proof {
                            lemma_index_push(old(self).files@, self.files@, path@);
                            assert forall|p: Seq<char>| p != path@ implies #[trigger] file_at(*self, p) == file_at(*old(self), p) by {
                                lemma_other_file(*old(self), *self, p, path@);
                            }
                        }
                    },
                }
            },
        }
    }

    /// Recursively get a subfolder by path.
    pub fn get_folder(&self, path: &str) -> (r: Option<&VFolder>)
        ensures
            r matches Some(x) ==> folder_at(*self, path@) == Some(*x),
            r is None ==> folder_at(*self, path@) is None,
        decreases path@.len(),
    {
        let (head, tail) = split_path(path);
        match tail {
            Some(t) => {
                proof {
                    lemma_slash_from(path@, 0);
                }
                match find(&self.folders, head) {
                    Some(k) => self.folders[k].1.get_folder(t),
                    None => None,
                }
            },
            None => match find(&self.folders, path) {
                Some(k) => Some(&self.folders[k].1),
                None => None,
            },
        }
    }

    /// Recursively get a mutable subfolder by path.
    pub fn get_folder_mut(&mut self, path: &str) -> (r: Option<&mut VFolder>)
        ensures
            r matches Some(x) ==> folder_at(*old(self), path@) == Some(*x),
            r is None ==> folder_at(*old(self), path@) is None,
        decreases path@.len(),
    {
        let (head, tail) = split_path(path);
        match tail {
            Some(t) => {
                proof {
                    lemma_slash_from(path@, 0);
                }
                match find(&self.folders, head) {
                    Some(k) => self.folders[k].1.get_folder_mut(t),
                    None => None,
                }
            },
            None => match find(&self.folders, path) {
                Some(k) => Some(&mut self.folders[k].1),
                None => None,
            },
        }
    }

    /// Recursively get a mutable file by path.
    pub fn get_file_mut(&mut self, path: &str) -> (r: Option<&mut VFile>)
        ensures
            r matches Some(x) ==> file_at(*old(self), path@) == Some(x@),
            r is None ==> file_at(*old(self), path@) is None,
        decreases path@.len(),
    {
        let (head, tail) = split_path(path);
        match tail {
            Some(t) => {
                proof {
                    lemma_slash_from(path@, 0);
                }
                match find(&self.folders, head) {
                    Some(k) => self.folders[k].1.get_file_mut(t),
                    None => None,
                }
            },
            None => match find(&self.files, path) {
                Some(k) => Some(&mut self.files[k].1),
                None => None,
            },
        }
    }

    /// Recursively get a file by path.
    pub fn get_file(&self, path: &str) -> (r: Option<&VFile>)
        ensures
            r matches Some(x) ==> file_at(*self, path@) == Some(x@),
            r is None ==> file_at(*self, path@) is None,
        decreases path@.len(),
    {
        let (head, tail) = split_path(path);
        match tail {
            Some(t) => {
                proof {
                    lemma_slash_from(path@, 0);
                }
                match find(&self.folders, head) {
                    Some(k) => self.folders[k].1.get_file(t),
                    None => None,
                }
            },
            None => match find(&self.files, path) {
                Some(k) => Some(&self.files[k].1),
                None => None,
            },
        }
    }
}

/// The number of files in `f` and all its subfolders.
pub closed spec fn flat_count(f: VFolder) -> nat
    decreases f, 1nat,
{
    f.files@.len() + folders_flat(f.folders@)
}

pub closed spec fn folders_flat(s: Seq<(String, VFolder)>) -> nat
    decreases s, 0nat,
{
    if s.len() == 0 {
        0
    } else {
        folders_flat(s.drop_last()) + flat_count(s.last().1)
    }
}

impl VFolder {
    /// Flatten the folder and its contents into a list of files with full
    /// paths, the folder's own files first.
    pub fn flatten(&self) -> (r: Vec<(String, VFile)>)
        ensures
            r@.len() == flat_count(*self),
            forall|i: int|
                0 <= i < self.file_entries().len() ==> (#[trigger] r@[i]).0@ == self.file_entries()[i].0@ && r@[i].1@
                    == self.file_entries()[i].1@,
        decreases self,
    {
        let mut files: Vec<(String, VFile)> = Vec::new();
        let mut j: usize = 0;
        while j < self.files.len()
            invariant
                j <= self.files@.len(),
                files@.len() == j,
                forall|k: int| 0 <= k < j ==> (#[trigger] files@[k]).0@ == self.files@[k].0@ && files@[k].1@ == self.files@[k].1@,
            decreases self.files.len() - j,
        {
            files.push((self.files[j].0.clone(), self.files[j].1.duplicate()));
            j = j + 1;
        }
        let mut i: usize = 0;
        while i < self.folders.len()
            invariant
                i <= self.folders@.len(),
                files@.len() == self.files@.len() + folders_flat(self.folders@.take(i as int)),
                forall|k: int| 0 <= k < self.files@.len() ==> (#[trigger] files@[k]).0@ == self.files@[k].0@ && files@[k].1@ == self.files@[k].1@,
            decreases self.folders.len() - i,
        {
            assert(decreases_to!(self => self.folders@[i as int].1));
            let sub = self.folders[i].1.flatten();
            let name = self.folders[i].0.as_str();
            let mut k: usize = 0;
            let ghost before = files@.len();
            while k < sub.len()
                invariant
                    k <= sub@.len(),
                    files@.len() == before + k,
                    before >= self.files@.len(),
                    forall|m: int| 0 <= m < self.files@.len() ==> (#[trigger] files@[m]).0@ == self.files@[m].0@ && files@[m].1@ == self.files@[m].1@,
                decreases sub.len() - k,
            {
                files.push((join3(name, "/", sub[k].0.as_str()), sub[k].1.duplicate()));
                k = k + 1;
            }
            proof {
                assert(self.folders@.take(i + 1).drop_last() =~= self.folders@.take(i as int));
            }
            i = i + 1;
        }
        assert(self.folders@.take(i as int) =~= self.folders@);
        files
    }

    /// Recursively merge another folder into this folder. Returns the paths
    /// of the files that were replaced by the other's.
    pub fn merge(&mut self, other: VFolder) -> (r: Vec<String>)
        ensures
            r@.len() <= flat_count(other),
    {
        self.merge_from(&other, "")
    }

    fn merge_from(&mut self, other: &VFolder, prefix: &str) -> (r: Vec<String>)
        ensures
            r@.len() <= flat_count(*other),
        decreases other,
    {
        let mut replaced: Vec<String> = Vec::new();
        let mut i: usize = 0;
        while i < other.folders.len()
            invariant
                i <= other.folders@.len(),
                replaced@.len() <= folders_flat(other.folders@.take(i as int)),
            decreases other.folders.len() - i,
        {
            assert(decreases_to!(other => other.folders@[i as int].1));
            let name = other.folders[i].0.as_str();
            match find(&self.folders, name) {
                Some(k) => {
                    let (n, mut existing) = self.folders.remove(k);
                    let sub_prefix = join3(prefix, name, "/");
                    let mut sub_replaced = existing.merge_from(&other.folders[i].1, sub_prefix.as_str());
                    self.folders.insert(k, (n, existing));
                    replaced.append(&mut sub_replaced);
                },
                None => {
                    self.folders.push((owned(name), other.folders[i].1.duplicate()));
                },
            }
            proof {
                assert(other.folders@.take(i + 1).drop_last() =~= other.folders@.take(i as int));
            }
            i = i + 1;
        }
        assert(other.folders@.take(i as int) =~= other.folders@);
        let mut j: usize = 0;
        while j < other.files.len()
            invariant
                j <= other.files@.len(),
                replaced@.len() <= folders_flat(other.folders@) + j,
            decreases other.files.len() - j,
        {
            let name = other.files[j].0.as_str();
            match find(&self.files, name) {
                Some(k) => {
                    self.files.set(k, (owned(name), other.files[j].1.duplicate()));
                    replaced.push(join3(prefix, name, ""));
                },
                None => {
                    self.files.push((owned(name), other.files[j].1.duplicate()));
                },
            }
            j = j + 1;
        }
        replaced
    }
}

/// Other names keep their first index when one entry is replaced by one of
/// the same name, or one is added at the back.
proof fn lemma_index_other<T>(a: Seq<(String, T)>, b: Seq<(String, T)>, name: Seq<char>, other: Seq<char>, i: int)
    requires
        other != name,
        0 <= i,
        b.len() == a.len() || b.len() == a.len() + 1,
        b.len() == a.len() + 1 ==> b[a.len() as int].0@ == name,
        forall|j: int| 0 <= j < a.len() && a[j].0@ != name ==> #[trigger] b[j] == a[j],
        forall|j: int| 0 <= j < a.len() && a[j].0@ == name ==> #[trigger] b[j].0@ == name,
    ensures
        index_of(b, other, i) == index_of(a, other, i),
        0 <= index_of(a, other, i) < a.len() ==> b[index_of(a, other, i)] == a[index_of(a, other, i)],
    decreases b.len() - i,
{
    if i < b.len() {
        lemma_index_other(a, b, name, other, i + 1);
    }
}

proof fn lemma_other_file(a: VFolder, b: VFolder, p: Seq<char>, q: Seq<char>)
    requires
        p != q,
        path_tail(q) is None,
        b.folders == a.folders,
        b.files@.len() == a.files@.len() || b.files@.len() == a.files@.len() + 1,
        b.files@.len() == a.files@.len() + 1 ==> b.files@[a.files@.len() as int].0@ == q,
        forall|j: int| 0 <= j < a.files@.len() && a.files@[j].0@ != q ==> #[trigger] b.files@[j] == a.files@[j],
        forall|j: int| 0 <= j < a.files@.len() && a.files@[j].0@ == q ==> #[trigger] b.files@[j].0@ == q,
    ensures
        file_at(b, p) == file_at(a, p),
{
    lemma_index_other(a.files@, b.files@, q, p, 0);
    lemma_index_of(a.files@, p, 0);
}

proof fn lemma_other_folder(a: VFolder, b: VFolder, k: int, p: Seq<char>, q: Seq<char>)
    requires
        p != q,
        path_tail(q) is Some,
        0 <= k < a.folders@.len(),
        index_of(a.folders@, path_head(q), 0) == k,
        index_of(b.folders@, path_head(q), 0) == k,
        b.files == a.files,
        b.folders@.len() == a.folders@.len(),
        b.folders@[k].0@ == path_head(q),
        forall|j: int| 0 <= j < a.folders@.len() && j != k ==> #[trigger] b.folders@[j] == a.folders@[j],
        forall|x: Seq<char>|
            x != path_tail(q)->Some_0 ==> #[trigger] file_at(b.folders@[k].1, x) == file_at(a.folders@[k].1, x),
    ensures
        !(path_tail(p) is Some && path_head(p) == path_head(q)) ==> file_at(b, p) == file_at(a, p),
        (path_tail(p) is Some && path_head(p) == path_head(q) && path_tail(p) != path_tail(q)) ==> file_at(b, p)
            == file_at(a, p),
{
    lemma_index_of(a.folders@, path_head(q), 0);
    assert forall|j: int| 0 <= j < a.folders@.len() && a.folders@[j].0@ != path_head(q) implies #[trigger] b.folders@[j] == a.folders@[j] by {}
    assert forall|j: int| 0 <= j < a.folders@.len() && a.folders@[j].0@ == path_head(q) implies #[trigger] b.folders@[j].0@ == path_head(q) by {}
    if path_tail(p) is Some && path_head(p) != path_head(q) {
        lemma_index_other(a.folders@, b.folders@, path_head(q), path_head(p), 0);
        lemma_index_of(a.folders@, path_head(p), 0);
    }
    if path_tail(p) is Some && path_head(p) == path_head(q) && path_tail(p) != path_tail(q) {
        let tp = path_tail(p)->Some_0;
        assert(tp != path_tail(q)->Some_0);
        assert(file_at(b.folders@[k].1, tp) == file_at(a.folders@[k].1, tp));
    }
}

proof fn lemma_pushed_folder(a: VFolder, b: VFolder, p: Seq<char>, q: Seq<char>)
    requires
        p != q,
        path_tail(q) is Some,
        index_of(a.folders@, path_head(q), 0) == -1,
        b.files == a.files,
        b.folders@.len() == a.folders@.len() + 1,
        b.folders@[a.folders@.len() as int].0@ == path_head(q),
        index_of(b.folders@, path_head(q), 0) == a.folders@.len(),
        forall|j: int| 0 <= j < a.folders@.len() ==> #[trigger] b.folders@[j] == a.folders@[j],
    ensures
        !(path_tail(p) is Some && path_head(p) == path_head(q)) ==> file_at(b, p) == file_at(a, p),
        (path_tail(p) is Some && path_head(p) == path_head(q)) ==> file_at(a, p) is None,
{
    if path_tail(p) is Some && path_head(p) != path_head(q) {
        lemma_index_other(a.folders@, b.folders@, path_head(q), path_head(p), 0);
        lemma_index_of(a.folders@, path_head(p), 0);
    }
}

proof fn lemma_empty_has_no_file(f: VFolder, p: Seq<char>)
    requires
        f.files@.len() == 0,
        f.folders@.len() == 0,
    ensures
        file_at(f, p) is None,
{
}

/// Two paths with a tail, the same head and the same tail are equal.
proof fn lemma_same_split(p: Seq<char>, q: Seq<char>)
    requires
        path_tail(p) is Some,
        path_tail(q) is Some,
        path_head(p) == path_head(q),
    ensures
        path_tail(p) == path_tail(q) ==> p == q,
{
    lemma_slash_from(p, 0);
    lemma_slash_from(q, 0);
    let k = slash_from(p, 0);
    assert(path_head(p).len() == k);
    if path_tail(p) == path_tail(q) {
        assert(p =~= p.subrange(0, k) + seq!['/'] + p.subrange(k + 1, p.len() as int));
        assert(q =~= q.subrange(0, k) + seq!['/'] + q.subrange(k + 1, q.len() as int));
    }
}

/// A path without any `/` has no tail.
pub proof fn lemma_no_slash(p: Seq<char>)
    requires
        forall|i: int| 0 <= i < p.len() ==> p[i] != '/',
    ensures
        path_tail(p) is None,
{
    lemma_no_slash_from(p, 0);
}

proof fn lemma_no_slash_from(p: Seq<char>, i: int)
    requires
        0 <= i,
        forall|j: int| 0 <= j < p.len() ==> p[j] != '/',
    ensures
        slash_from(p, i) == -1,
    decreases p.len() - i,
{
    if i < p.len() {
        lemma_no_slash_from(p, i + 1);
    }
}

/// Folders are looked up in the folder entries alone.
pub proof fn lemma_folder_at_entries(a: VFolder, b: VFolder, p: Seq<char>)
    requires
        a.folder_entries() == b.folder_entries(),
    ensures
        folder_at(a, p) == folder_at(b, p),
{
}

proof fn lemma_index_keep<T>(a: Seq<(String, T)>, b: Seq<(String, T)>, name: Seq<char>, k: int)
    requires
        index_of(a, name, 0) == k,
        0 <= k < a.len(),
        b.len() == a.len(),
        b[k].0@ == name,
        forall|i: int| 0 <= i < a.len() && i != k ==> #[trigger] b[i].0@ == a[i].0@,
    ensures
        index_of(b, name, 0) == k,
{
    lemma_index_prefix(a, b, name, 0, k);
}

proof fn lemma_index_prefix<T>(a: Seq<(String, T)>, b: Seq<(String, T)>, name: Seq<char>, i: int, k: int)
    requires
        0 <= i <= k,
        index_of(a, name, i) == k,
        0 <= k < a.len(),
        b.len() == a.len(),
        b[k].0@ == name,
        forall|j: int| 0 <= j < a.len() && j != k ==> #[trigger] b[j].0@ == a[j].0@,
    ensures
        index_of(b, name, i) == k,
    decreases k - i,
{
    if i < k {
        lemma_index_prefix(a, b, name, i + 1, k);
    }
}

proof fn lemma_index_push<T>(a: Seq<(String, T)>, b: Seq<(String, T)>, name: Seq<char>)
    requires
        index_of(a, name, 0) == -1,
        b.len() == a.len() + 1,
        b[a.len() as int].0@ == name,
        forall|j: int| 0 <= j < a.len() ==> #[trigger] b[j].0@ == a[j].0@,
    ensures
        index_of(b, name, 0) == a.len(),
{
    lemma_index_push_from(a, b, name, 0);
}

proof fn lemma_index_push_from<T>(a: Seq<(String, T)>, b: Seq<(String, T)>, name: Seq<char>, i: int)
    requires
        0 <= i <= a.len(),
        index_of(a, name, i) == -1,
        b.len() == a.len() + 1,
        b[a.len() as int].0@ == name,
        forall|j: int| 0 <= j < a.len() ==> #[trigger] b[j].0@ == a[j].0@,
    ensures
        index_of(b, name, i) == a.len(),
    decreases a.len() - i,
{
    if i < a.len() {
        lemma_index_push_from(a, b, name, i + 1);
    }
}

} // verus!
