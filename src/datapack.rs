//! A data pack: namespaces, custom files and the pack metadata.

use vstd::prelude::*;
use vstd::string::*;
use std::ops::RangeInclusive;
use crate::compile::{CompileOptions, CompilerState, LATEST_FORMAT};
use crate::function::FunctionView;
use crate::namespace::{Namespace, drained, namespace_valid};
use crate::tag::{TagType, TagValue, json_string, json_string_of};
use crate::text::{decimal, decimal_of, join2, join3, owned};
use crate::vfs::{VFile, VFileView, VFolder, file_at, folder_at, lemma_folder_at_entries, lemma_no_slash, path_tail};

verus! {

broadcast use vstd::std_specs::vec::group_vec_axioms;

/// A Minecraft datapack.
#[derive(Debug, Clone, PartialEq, Eq)]
pub struct Datapack {
    description: String,
    pack_format: u8,
    supported_formats: Option<(u8, u8)>,
    namespaces: Vec<Namespace>,
    custom_files: VFolder,
}

/// The text of `pack.mcmeta`.
pub open spec fn mcmeta_json(description: Seq<char>, pack_format: u8, supported: Option<(u8, u8)>) -> Seq<char> {
    "{\"pack\":{\"description\":"@ + json_string_of(description) + ",\"pack_format\":"@ + decimal_of(
        pack_format as nat,
    ) + match supported {
        Some((lo, hi)) => ",\"supported_formats\":{\"max_inclusive\":"@ + decimal_of(hi as nat)
            + ",\"min_inclusive\":"@ + decimal_of(lo as nat) + "}"@,
        None => Seq::empty(),
    } + "}}"@
}

/// The formats a pack declares: its supported range, or its own format.
pub open spec fn declared_formats(pack_format: u8, supported: Option<(u8, u8)>) -> (u8, u8) {
    match supported {
        Some(r) => r,
        None => (pack_format, pack_format),
    }
}

/// The folder `d` holds, under the namespace's name, what compiling the
/// namespace gives.
pub open spec fn namespace_compiled(d: VFolder, ns: Namespace, o: CompileOptions) -> bool {
    match folder_at(d, ns.name_view()) {
        Some(f) => exists|done: Seq<(Seq<char>, FunctionView)>| #[trigger] drained(f, done, ns.function_entries(), o, ns.name_view()),
        None => false,
    }
}

/// The index of the first namespace named `name` at or after `i`, or -1.
pub open spec fn namespace_index(s: Seq<Namespace>, name: Seq<char>, i: int) -> int
    decreases s.len() - i,
{
    if i < 0 || i >= s.len() {
        -1
    } else if s[i].name_view() == name {
        i
    } else {
        namespace_index(s, name, i + 1)
    }
}

proof fn lemma_namespace_index(s: Seq<Namespace>, name: Seq<char>, i: int)
    requires
        0 <= i,
    ensures
        namespace_index(s, name, i) == -1 || (i <= namespace_index(s, name, i) < s.len()
            && s[namespace_index(s, name, i)].name_view() == name),
    decreases s.len() - i,
{
    if i < s.len() && s[i].name_view() != name {
        lemma_namespace_index(s, name, i + 1);
    }
}

proof fn lemma_namespace_absent(s: Seq<Namespace>, name: Seq<char>, i: int)
    requires
        0 <= i,
        namespace_index(s, name, i) == -1,
    ensures
        forall|j: int| i <= j < s.len() ==> (#[trigger] s[j]).name_view() != name,
    decreases s.len() - i,
{
    if i < s.len() {
        lemma_namespace_absent(s, name, i + 1);
    }
}

proof fn lemma_namespace_push_from(a: Seq<Namespace>, b: Seq<Namespace>, name: Seq<char>, i: int)
    requires
        0 <= i <= a.len(),
        namespace_index(a, name, i) == -1,
        b.len() == a.len() + 1,
        b[a.len() as int].name_view() == name,
        forall|j: int| 0 <= j < a.len() ==> #[trigger] b[j] == a[j],
    ensures
        namespace_index(b, name, i) == a.len(),
    decreases a.len() - i,
{
    if i < a.len() {
        lemma_namespace_push_from(a, b, name, i + 1);
    }
}

proof fn lemma_namespace_keep_from(a: Seq<Namespace>, b: Seq<Namespace>, name: Seq<char>, i: int, k: int)
    requires
        0 <= i <= k < a.len(),
        namespace_index(a, name, i) == k,
        b.len() == a.len(),
        b[k].name_view() == a[k].name_view(),
        forall|j: int| 0 <= j < a.len() && j != k ==> #[trigger] b[j] == a[j],
    ensures
        namespace_index(b, name, i) == k,
    decreases k - i,
{
    if i < k {
        lemma_namespace_keep_from(a, b, name, i + 1, k);
    } else {
        lemma_namespace_index(a, name, k + 1);
    }
}

/// The function tag `tag` of the `minecraft` namespace ends with `function`.
pub open spec fn lists_function(dp: Datapack, tag: Seq<char>, function: Seq<char>) -> bool {
    match dp.namespace_at("minecraft"@) {
        Some(ns) => match ns.tag_at(tag, TagType::Function) {
            Some(t) => t.1.len() > 0 && (t.1.last() matches TagValue::Simple(v) && v@ == function),
            None => false,
        },
        None => false,
    }
}

impl Datapack {
    pub const LATEST_FORMAT: u8 = 48;

    /// No two namespaces share a name, and each is well formed.
    pub open spec fn wf(&self) -> bool {
        &&& forall|i: int, j: int|
            0 <= i < j < self.namespace_list().len() ==> (#[trigger] self.namespace_list()[i]).name_view() != (
            #[trigger] self.namespace_list()[j]).name_view()
        &&& forall|i: int| 0 <= i < self.namespace_list().len() ==> (#[trigger] self.namespace_list()[i]).wf()
    }

    /// No namespace name holds a `/`.
    pub open spec fn simple_names(&self) -> bool {
        forall|i: int| 0 <= i < self.namespace_list().len() ==> path_tail((#[trigger] self.namespace_list()[i]).name_view()) is None
    }

    /// The namespace named `name`.
    pub open spec fn namespace_at(&self, name: Seq<char>) -> Option<Namespace> {
        let k = namespace_index(self.namespace_list(), name, 0);
        if 0 <= k < self.namespace_list().len() {
            Some(self.namespace_list()[k])
        } else {
            None
        }
    }

    pub closed spec fn description_view(&self) -> Seq<char> {
        self.description@
    }

    pub closed spec fn format(&self) -> u8 {
        self.pack_format
    }

    pub closed spec fn supported(&self) -> Option<(u8, u8)> {
        self.supported_formats
    }

    pub closed spec fn namespace_list(&self) -> Seq<Namespace> {
        self.namespaces@
    }

    pub closed spec fn custom_folder(&self) -> VFolder {
        self.custom_files
    }

    /// Every function of the pack is small enough to compile.
    pub open spec fn fits(&self) -> bool {
        forall|i: int| 0 <= i < self.namespace_list().len() ==> (#[trigger] self.namespace_list()[i]).fits()
    }

    /// Create a new Minecraft datapack.
    pub fn new(pack_format: u8) -> (r: Self)
        ensures
            r.description_view() == "A Minecraft datapack created with shulkerbox"@,
            r.format() == pack_format,
            r.supported() is None,
            r.namespace_list().len() == 0,
            r.custom_folder().file_count() == 0,
            r.custom_folder().folder_count() == 0,
            r.wf(),
    {
        Datapack {
            description: owned("A Minecraft datapack created with shulkerbox"),
            pack_format,
            supported_formats: None,
            namespaces: Vec::new(),
            custom_files: VFolder::new(),
        }
    }

    /// Set the description of the datapack.
    pub fn with_description(self, description: &str) -> (r: Self)
        ensures
            r.description_view() == description@,
            r.format() == self.format(),
            r.supported() == self.supported(),
            r.namespace_list() == self.namespace_list(),
    {
        Datapack { description: owned(description), ..self }
    }

    /// Set the supported pack formats of the datapack.
    pub fn with_supported_formats(self, supported_formats: RangeInclusive<u8>) -> (r: Self)
        ensures
            r.supported() == Some((supported_formats@.start, supported_formats@.end)),
            r.description_view() == self.description_view(),
            r.format() == self.format(),
            r.namespace_list() == self.namespace_list(),
    {
        let lo = *supported_formats.start();
        let hi = *supported_formats.end();
        Datapack { supported_formats: Some((lo, hi)), ..self }
    }

    /// Put the custom files over a template folder: the files added so far
    /// replace the template's files of the same path.
    pub fn with_template_folder(self, template: VFolder) -> (r: Self)
        ensures
            r.description_view() == self.description_view(),
            r.format() == self.format(),
            r.supported() == self.supported(),
            r.namespace_list() == self.namespace_list(),
    {
        let mut template = template;
        let Datapack { description, pack_format, supported_formats, namespaces, custom_files } = self;
        let _ = template.merge(custom_files);
        Datapack { description, pack_format, supported_formats, namespaces, custom_files: template }
    }

    fn find_namespace(&self, name: &str) -> (r: Option<usize>)
        ensures
            r matches Some(k) ==> k < self.namespace_list().len() && namespace_index(self.namespace_list(), name@, 0) == k,
            r is None ==> namespace_index(self.namespace_list(), name@, 0) == -1,
    {
        let mut i: usize = 0;
        while i < self.namespaces.len()
            invariant
                i <= self.namespaces@.len(),
                namespace_index(self.namespaces@, name@, 0) == namespace_index(self.namespaces@, name@, i as int),
            decreases self.namespaces.len() - i,
        {
            if owned(self.namespaces[i].get_name()) == owned(name) {
                return Some(i);
            }
            i = i + 1;
        }
        None
    }

    /// Get a namespace by name.
    pub fn namespace(&self, name: &str) -> (r: Option<&Namespace>)
        ensures
            r matches Some(ns) ==> self.namespace_at(name@) == Some(*ns),
            r is None ==> self.namespace_at(name@) is None,
    {
        match self.find_namespace(name) {
            Some(k) => Some(&self.namespaces[k]),
            None => None,
        }
    }

    /// Mutably get a namespace by name, creating an empty one where there is
    /// none.
    pub fn namespace_mut(&mut self, name: &str) -> (r: &mut Namespace)
        ensures
            old(self).namespace_at(name@) matches Some(ns) ==> *r == ns,
            old(self).namespace_at(name@) is None ==> (*r).name_view() == name@ && (*r).function_entries()
                == Seq::<(Seq<char>, FunctionView)>::empty() && (*r).tag_count() == 0,
            (*r).name_view() == name@,
            (*final(r)).name_view() == name@ ==> final(self).namespace_at(name@) == Some(*final(r)),
            final(self).namespace_list().len() == old(self).namespace_list().len() + if old(self).namespace_at(
                name@,
            ) is None {
                1int
            } else {
                0int
            },
            final(self).description_view() == old(self).description_view(),
            final(self).format() == old(self).format(),
            final(self).supported() == old(self).supported(),
            (old(self).wf() && (*final(r)).name_view() == name@ && (*final(r)).wf()) ==> final(self).wf(),
    {
        let k = match self.find_namespace(name) {
            Some(k) => {
                proof {
                    lemma_namespace_index(self.namespaces@, name@, 0);
                }
                k
            },
            None => {
                let ghost before = self.namespaces@;
                proof {
                    lemma_namespace_absent(before, name@, 0);
                }
                self.namespaces.push(Namespace::new(name));
                proof {
                    lemma_namespace_push_from(before, self.namespaces@, name@, 0);
                }
                self.namespaces.len() - 1
            },
        };
        let ghost mid = self.namespaces@;
        let r = &mut self.namespaces[k];
        proof {
            assert forall|x: Namespace| x.name_view() == name@ implies #[trigger] namespace_index(mid.update(k as int, x), name@, 0) == k by {
                lemma_namespace_keep_from(mid, mid.update(k as int, x), name@, 0, k as int);
            }
        }
        r
    }

    /// The number of namespaces.
    pub fn namespace_count(&self) -> (r: usize)
        ensures
            r == self.namespace_list().len(),
    {
        self.namespaces.len()
    }

    /// Add a function to the tick function list.
    pub fn add_tick(&mut self, function: &str)
        ensures
            lists_function(*final(self), "tick"@, function@),
    {
        self.namespace_mut("minecraft").tag_mut("tick", TagType::Function).add_value(TagValue::simple(function));
    }

    /// Add a function to the load function list.
    pub fn add_load(&mut self, function: &str)
        ensures
            lists_function(*final(self), "load"@, function@),
    {
        self.namespace_mut("minecraft").tag_mut("load", TagType::Function).add_value(TagValue::simple(function));
    }

    /// Add a custom file to the datapack.
    pub fn add_custom_file(&mut self, path: &str, file: VFile)
        ensures
            file_at(final(self).custom_folder(), path@) == Some(file@),
    {
        self.custom_files.add_file(path, file);
    }

    /// Compile the pack into a virtual folder: the custom files, the pack
    /// metadata, and each namespace under `data`.
    pub fn compile(&self, options: &CompileOptions) -> (r: VFolder)
        requires
            self.fits(),
        ensures
            file_at(r, "pack.mcmeta"@) == Some(VFileView::Text(
                mcmeta_json(self.description_view(), self.format(), self.supported()),
            )),
            (self.wf() && self.simple_names()) ==> (folder_at(r, "data"@) matches Some(d) && forall|k: int|
                0 <= k < self.namespace_list().len() ==> #[trigger] namespace_compiled(d, self.namespace_list()[k], *options)),
    {
        let compiler_state = CompilerState {};
        let mut root_folder = self.custom_files.duplicate();
        let mut data_folder = VFolder::new();
        let mut i: usize = 0;
        while i < self.namespaces.len()
            invariant
                i <= self.namespaces@.len(),
                self.fits(),
                (self.wf() && self.simple_names()) ==> forall|k: int|
                    0 <= k < i ==> #[trigger] namespace_compiled(data_folder, self.namespace_list()[k], *options),
            decreases self.namespaces.len() - i,
        {
            assert(self.namespace_list()[i as int].fits());
            let namespace_folder = self.namespaces[i].compile(options, &compiler_state);
            let ghost d0 = data_folder;
            let ghost f = namespace_folder;
            data_folder.add_existing_folder(self.namespaces[i].get_name(), namespace_folder);
            proof {
                if self.wf() && self.simple_names() {
                    let ni = self.namespace_list()[i as int];
                    assert(path_tail(ni.name_view()) is None);
                    assert(ni == self.namespaces@[i as int]);
                    assert(exists|done: Seq<(Seq<char>, FunctionView)>| #[trigger] drained(f, done, ni.function_entries(), *options, ni.name_view()));
                    assert(folder_at(data_folder, ni.name_view()) == Some(f));
                    let done = choose|done: Seq<(Seq<char>, FunctionView)>| #[trigger] drained(f, done, ni.function_entries(), *options, ni.name_view());
                    assert(drained(folder_at(data_folder, ni.name_view())->Some_0, done, ni.function_entries(), *options, ni.name_view()));
                    assert(namespace_compiled(data_folder, ni, *options));
                    assert forall|k: int| 0 <= k < i + 1 implies #[trigger] namespace_compiled(data_folder, self.namespace_list()[k], *options) by {
                        if k < i {
                            let nk = self.namespace_list()[k];
                            assert(nk.name_view() != ni.name_view());
                            assert(path_tail(nk.name_view()) is None);
                            assert(folder_at(data_folder, nk.name_view()) == folder_at(d0, nk.name_view()));
                            assert(namespace_compiled(d0, nk, *options));
                        }
                    }
                }
            }
            i = i + 1;
        }
        let ghost d = data_folder;
        root_folder.add_existing_folder("data", data_folder);
        let ghost r1 = root_folder;
        proof {
            reveal_strlit("data");
            reveal_strlit("pack.mcmeta");
            lemma_no_slash("data"@);
            lemma_no_slash("pack.mcmeta"@);
        }
        root_folder.add_file("pack.mcmeta", generate_mcmeta(self, options));
        proof {
            lemma_folder_at_entries(root_folder, r1, "data"@);
        }
        root_folder
    }

    /// Check whether the datapack is valid with its supported formats, or
    /// with its own format where it declares none.
    pub fn validate(&self) -> (r: bool)
        ensures
            r == forall|k: int|
                0 <= k < self.namespace_list().len() ==> namespace_valid(
                    #[trigger] self.namespace_list()[k],
                    declared_formats(self.format(), self.supported()).0,
                    declared_formats(self.format(), self.supported()).1,
                ),
    {
        let (lo, hi) = match self.supported_formats {
            Some((lo, hi)) => (lo, hi),
            None => (self.pack_format, self.pack_format),
        };
        let pack_formats = RangeInclusive::new(lo, hi);
        let mut i: usize = 0;
        while i < self.namespaces.len()
            invariant
                i <= self.namespaces@.len(),
                pack_formats@.start == lo,
                pack_formats@.end == hi,
                (lo, hi) == declared_formats(self.format(), self.supported()),
                forall|k: int| 0 <= k < i ==> namespace_valid(#[trigger] self.namespaces@[k], lo, hi),
            decreases self.namespaces.len() - i,
        {
            if !self.namespaces[i].validate(&pack_formats) {
                assert(!namespace_valid(self.namespace_list()[i as int], lo, hi));
                return false;
            }
            i = i + 1;
        }
        true
    }
}

/// The metadata file of a pack.
pub fn generate_mcmeta(dp: &Datapack, options: &CompileOptions) -> (r: VFile)
    ensures
        r@ == VFileView::Text(mcmeta_json(dp.description_view(), dp.format(), dp.supported())),
{
    let mut out = owned("{\"pack\":{\"description\":");
    out.append(json_string(dp.description.as_str()).as_str());
    out.append(",\"pack_format\":");
    out.append(decimal(dp.pack_format as usize).as_str());
    match dp.supported_formats {
        Some((lo, hi)) => {
            out.append(",\"supported_formats\":{\"max_inclusive\":");
            out.append(decimal(hi as usize).as_str());
            out.append(",\"min_inclusive\":");
            out.append(decimal(lo as usize).as_str());
            out.append("}");
        },
        None => {},
    }
    out.append("}}");
    assert(out@ =~= mcmeta_json(dp.description_view(), dp.format(), dp.supported()));
    VFile::Text(out)
}

} // verus!
