//! Building the description of a compilation unit step by step.
use crate::utils::ats::{ATDependency, ATFile, ATInfo};
use crate::utils::strmap::StrMap;
use crate::utils::text::{concat, debug_quoted, debug_text, str_eq};
use vstd::prelude::*;
use vstd::string::*;

verus! {

/// The value of a file entry: its path and its module segments.
pub open spec fn file_v(f: ATFile) -> (Seq<char>, Seq<Seq<char>>) {
    (f.path@, f.module_segments@.map_values(|s: String| s@))
}

/// Whether one of `files` has the path `p`.
pub open spec fn has_path(files: Seq<ATFile>, p: Seq<char>) -> bool {
    exists|i: int| 0 <= i < files.len() && #[trigger] files[i].path@ == p
}

/// Whether a file sits at the top of the root directory.
pub open spec fn is_top(f: ATFile) -> bool {
    f.module_segments@.len() == 1
}

/// Whether a file is the top-level `main` file.
pub open spec fn is_main(f: ATFile) -> bool {
    is_top(f) && f.module_segments@[0]@ == "main"@
}

/// The path of the first top-level `main` file of `files`, if any.
pub open spec fn first_main(files: Seq<ATFile>) -> Option<Seq<char>>
    decreases files.len(),
{
    if files.len() == 0 {
        None
    } else if is_main(files[0]) {
        Some(files[0].path@)
    } else {
        first_main(files.drop_first())
    }
}

/// The path of the first top-level file of `files`, if any.
pub open spec fn first_top(files: Seq<ATFile>) -> Option<Seq<char>>
    decreases files.len(),
{
    if files.len() == 0 {
        None
    } else if is_top(files[0]) {
        Some(files[0].path@)
    } else {
        first_top(files.drop_first())
    }
}

/// The entry file chosen among discovered files: the top-level `main` file if there is
/// one, else the first top-level file, if any.
pub open spec fn discovered_entry(files: Seq<ATFile>) -> Option<Seq<char>> {
    match first_main(files) {
        Some(p) => Some(p),
        None => first_top(files),
    }
}

/// Collects what describes a compilation unit, then checks it and makes the unit.
#[derive(Debug)]
pub struct ATBuilder {
    name: Option<String>,
    version: Option<String>,
    root_dir: Option<String>,
    entry_file: Option<String>,
    files: Vec<ATFile>,
    dependencies: Vec<ATDependency>,
}

impl ATBuilder {
    /// The name given, if any.
    pub closed spec fn name_v(&self) -> Option<Seq<char>> {
        match self.name {
            Some(n) => Some(n@),
            None => None,
        }
    }

    /// The version given, if any.
    pub closed spec fn version_v(&self) -> Option<Seq<char>> {
        match self.version {
            Some(n) => Some(n@),
            None => None,
        }
    }

    /// The root directory given, if any.
    pub closed spec fn root_v(&self) -> Option<Seq<char>> {
        match self.root_dir {
            Some(n) => Some(n@),
            None => None,
        }
    }

    /// The entry file given or chosen, if any.
    pub closed spec fn entry_v(&self) -> Option<Seq<char>> {
        match self.entry_file {
            Some(n) => Some(n@),
            None => None,
        }
    }

    /// The files added, in order.
    pub closed spec fn files_v(&self) -> Seq<ATFile> {
        self.files@
    }

    /// The dependencies added, in order.
    pub closed spec fn deps_v(&self) -> Seq<ATDependency> {
        self.dependencies@
    }

    /// A builder with nothing set.
    pub fn new() -> (res: Self)
        ensures
            res.name_v() is None,
            res.version_v() is None,
            res.root_v() is None,
            res.entry_v() is None,
            res.files_v().len() == 0,
            res.deps_v().len() == 0,
    {
        ATBuilder {
            name: None,
            version: None,
            root_dir: None,
            entry_file: None,
            files: Vec::new(),
            dependencies: Vec::new(),
        }
    }

    /// Sets the unit's name (required).
    pub fn name(self, name: String) -> (res: Self)
        ensures
            res.name_v() == Some(name@),
            res.version_v() == self.version_v(),
            res.root_v() == self.root_v(),
            res.entry_v() == self.entry_v(),
            res.files_v() == self.files_v(),
            res.deps_v() == self.deps_v(),
    {
        let mut b = self;
        b.name = Some(name);
        b
    }

    /// Sets the unit's version (optional).
    pub fn version(self, version: String) -> (res: Self)
        ensures
            res.version_v() == Some(version@),
            res.name_v() == self.name_v(),
            res.root_v() == self.root_v(),
            res.entry_v() == self.entry_v(),
            res.files_v() == self.files_v(),
            res.deps_v() == self.deps_v(),
    {
        let mut b = self;
        b.version = Some(version);
        b
    }

    /// Sets the root directory.
    pub fn root_dir(self, root: String) -> (res: Self)
        ensures
            res.root_v() == Some(root@),
            res.name_v() == self.name_v(),
            res.version_v() == self.version_v(),
            res.entry_v() == self.entry_v(),
            res.files_v() == self.files_v(),
            res.deps_v() == self.deps_v(),
    {
        let mut b = self;
        b.root_dir = Some(root);
        b
    }

    /// Sets the entry file (if not set, discovery chooses one).
    pub fn entry_file(self, entry: String) -> (res: Self)
        ensures
            res.entry_v() == Some(entry@),
            res.name_v() == self.name_v(),
            res.version_v() == self.version_v(),
            res.root_v() == self.root_v(),
            res.files_v() == self.files_v(),
            res.deps_v() == self.deps_v(),
    {
        let mut b = self;
        b.entry_file = Some(entry);
        b
    }

    /// Adds one file, with its module segments.
    pub fn add_file(self, path: String, module_segments: Vec<String>) -> (res: Self)
        ensures
            res.files_v() == self.files_v().push(ATFile { path, module_segments }),
            res.name_v() == self.name_v(),
            res.version_v() == self.version_v(),
            res.root_v() == self.root_v(),
            res.entry_v() == self.entry_v(),
            res.deps_v() == self.deps_v(),
    {
        let mut b = self;
        b.files.push(ATFile { path, module_segments });
        b
    }

    /// Adds a dependency on the unit `name`.
    pub fn add_dependency(self, name: String, version_req: Option<String>) -> (res: Self)
        ensures
            res.deps_v() == self.deps_v().push(ATDependency { name, version_req }),
            res.name_v() == self.name_v(),
            res.version_v() == self.version_v(),
            res.root_v() == self.root_v(),
            res.entry_v() == self.entry_v(),
            res.files_v() == self.files_v(),
    {
        let mut b = self;
        b.dependencies.push(ATDependency { name, version_req });
        b
    }

    /// The directory that discovery reads: the root directory, which must be set.
    pub fn discovery_root(&self) -> (res: Result<String, String>)
        ensures
            match self.root_v() {
                Some(r) => res matches Ok(p) && p@ == r,
                None => res matches Err(m) && m@ == "Root directory must be set before discovery"@,
            },
    {
        match &self.root_dir {
            Some(r) => Ok(r.clone()),
            None => Err(String::from_str("Root directory must be set before discovery")),
        }
    }

    /// Takes the files that discovery found under the root directory in place of those
    /// added; without an entry file, chooses the top-level `main` file, else the first
    /// top-level file, and fails if there is none.
    pub fn with_discovered(self, files: Vec<ATFile>) -> (res: Result<Self, String>)
        ensures
            match res {
                Ok(b) => {
                    &&& b.files_v() == files@
                    &&& b.entry_v() == (if self.entry_v() is Some {
                        self.entry_v()
                    } else {
                        discovered_entry(files@)
                    })
                    &&& b.name_v() == self.name_v()
                    &&& b.version_v() == self.version_v()
                    &&& b.root_v() == self.root_v()
                    &&& b.deps_v() == self.deps_v()
                },
                Err(m) => self.entry_v() is None && discovered_entry(files@) is None
                    && m@ == "No .mysz files found in root directory"@,
            },
    {
        let mut b = self;
        if b.entry_file.is_none() {
            let mut first: Option<usize> = None;
            let mut main: Option<usize> = None;
            let mut i: usize = 0;
            assert(files@.skip(0) =~= files@);
            while i < files.len()
                invariant
                    0 <= i <= files@.len(),
                    main is None ==> first_main(files@) == first_main(files@.skip(i as int)),
                    main matches Some(mi) ==> mi < files@.len() && first_main(files@) == Some(
                        files@[mi as int].path@,
                    ),
                    first is None ==> first_top(files@) == first_top(files@.skip(i as int)),
                    first matches Some(fi) ==> fi < files@.len() && first_top(files@) == Some(
                        files@[fi as int].path@,
                    ),
                decreases files.len() - i,
            {
                assert(files@.skip(i as int)[0] == files@[i as int]);
                assert(files@.skip(i as int).drop_first() =~= files@.skip(i + 1));
                if files[i].module_segments.len() == 1 {
                    if first.is_none() {
                        first = Some(i);
                    }
                    if main.is_none() && str_eq(files[i].module_segments[0].as_str(), "main") {
                        main = Some(i);
                    }
                }
                i = i + 1;
            }
            match main {
                Some(mi) => {
                    b.entry_file = Some(files[mi].path.clone());
                },
                None => match first {
                    Some(fi) => {
                        b.entry_file = Some(files[fi].path.clone());
                    },
                    None => {
                        return Err(String::from_str("No .mysz files found in root directory"));
                    },
                },
            }
        }
        b.files = files;
        Ok(b)
    }

    /// Makes the unit: a name and an entry file are required, and the entry file must be
    /// one of the unit's files; the root directory is `cwd`, the working directory, when
    /// none was set; what the compiler records starts empty.
    pub fn build(self, cwd: String) -> (res: Result<ATInfo, String>)
        ensures
            match res {
                Ok(info) => {
                    &&& self.name_v() == Some(info.name@)
                    &&& info.root_dir@ == match self.root_v() {
                        Some(r) => r,
                        None => cwd@,
                    }
                    &&& self.version_v() == match info.version {
                        Some(v) => Some(v@),
                        None => None,
                    }
                    &&& self.entry_v() == Some(info.entry_file@)
                    &&& has_path(self.files_v(), info.entry_file@)
                    &&& info.files@ == self.files_v()
                    &&& info.dependencies@ == self.deps_v()
                    &&& info.struct_defs.entries@.len() == 0
                    &&& info.fn_blueprints.entries@.len() == 0
                    &&& info.struct_blueprints.entries@.len() == 0
                    &&& info.enum_defs.entries@.len() == 0
                    &&& info.analyser_constants.entries@.len() == 0
                    &&& info.exported@.len() == 0
                },
                Err(m) => if self.name_v() is None {
                    m@ == "AT name is required"@
                } else if self.entry_v() is None {
                    m@ == "Entry file is required (and not detected)"@
                } else {
                    &&& !has_path(self.files_v(), self.entry_v()->0)
                    &&& m@ == "Entry file "@ + debug_text(self.entry_v()->0) + " is not in the file list"@
                },
            },
    {
        let name = match self.name {
            Some(n) => n,
            None => return Err(String::from_str("AT name is required")),
        };
        let root_dir = match self.root_dir {
            Some(r) => r,
            None => cwd,
        };
        let entry_file = match self.entry_file {
            Some(e) => e,
            None => return Err(String::from_str("Entry file is required (and not detected)")),
        };
        let mut found = false;
        let mut i: usize = 0;
        while i < self.files.len()
            invariant
                0 <= i <= self.files@.len(),
                found == exists|j: int| 0 <= j < i && #[trigger] self.files@[j].path@ == entry_file@,
            decreases self.files.len() - i,
        {
            if str_eq(self.files[i].path.as_str(), entry_file.as_str()) {
                found = true;
            }
            i = i + 1;
        }
        if !found {
            let shown = debug_quoted(entry_file.as_str());
            let a = concat("Entry file ", shown.as_str());
            return Err(concat(a.as_str(), " is not in the file list"));
        }
        Ok(
            ATInfo {
                name,
                version: self.version,
                root_dir,
                entry_file,
                files: self.files,
                dependencies: self.dependencies,
                struct_defs: StrMap::new(),
                struct_blueprints: StrMap::new(),
                enum_defs: StrMap::new(),
                fn_blueprints: StrMap::new(),
                analyser_constants: StrMap::new(),
                exported: Vec::new(),
            },
        )
    }
}

} // verus!
