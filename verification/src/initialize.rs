//! New repositories.
use vstd::prelude::*;
use vstd::string::*;

use crate::error::{configured, either, problem_if, settles, Problem, Result, WombatError};
use crate::model::path::{join_path, path_join};
use crate::model::source::EntryKind;
use crate::text::{cat2, cat3, holds, lines, lines_of, push_text, same, views};

verus! {

/// Whether something was made.
#[derive(Clone, Copy, Debug, PartialEq, Eq, Structural)]
pub enum InitStatus {
    /// Something was
    Initialized,
    /// Everything was there
    AlreadyInitialized,
}

/// What became of a new repository.
#[derive(Debug, PartialEq)]
pub struct InitOutcome {
    /// Where it is
    pub root: String,
    /// Whether something was made
    pub status: InitStatus,
    /// What to look after
    pub warning: Option<String>,
}

impl InitOutcome {
    /// What became of it, in words.
    pub fn display(&self) -> (r: String)
        ensures
            r@ == match self.status {
                InitStatus::Initialized => "initialized Wombat repository at "@ + self.root@,
                InitStatus::AlreadyInitialized => "Wombat repository already initialized at "@
                    + self.root@,
            },
    {
        match self.status {
            InitStatus::Initialized => cat2(
                "initialized Wombat repository at ",
                self.root.as_str(),
            ),
            InitStatus::AlreadyInitialized => cat2(
                "Wombat repository already initialized at ",
                self.root.as_str(),
            ),
        }
    }
}

/// The root configuration of a new repository.
pub open spec fn root_text() -> Seq<char> {
    "local w = require(\"wombat\")\n\nw.use(\"auto\")\n"@
}

/// The first module of a new repository.
pub open spec fn auto_text() -> Seq<char> {
    "local w = require(\"wombat\")\n\n-- wombat:add begin\n-- wombat:add end\n"@
}

/// What a new repository ignores.
pub open spec fn ignore_text() -> Seq<char> {
    "/build/\n"@
}

/// A path as it was found: what stands there, or why that could not be found out, and
/// what it holds, or why that could not be read.
#[derive(Debug, PartialEq)]
pub struct FoundPath {
    /// What stands there
    pub kind: std::result::Result<EntryKind, String>,
    /// What it holds
    pub text: std::result::Result<String, String>,
}

/// What is wrong with a path that should be a directory, if anything is there.
pub open spec fn directory_problem(
    subject: Seq<char>,
    path: Seq<char>,
    kind: std::result::Result<EntryKind, String>,
) -> Option<Problem> {
    match kind {
        Err(message) => Some(Problem::Io(message@)),
        Ok(kind) => configured(
            problem_if(
                kind != EntryKind::Missing && kind != EntryKind::Directory,
                subject + path + "` must be a non-symlink directory"@,
            ),
        ),
    }
}

fn check_directory(subject: &str, path: &str, kind: &std::result::Result<EntryKind, String>) -> (r: Result<
    (),
>)
    ensures
        settles(r, directory_problem(subject@, path@, *kind)),
{
    match kind {
        Err(message) => Err(WombatError::Io(message.clone())),
        Ok(kind) => {
            if *kind != EntryKind::Missing && *kind != EntryKind::Directory {
                return Err(
                    WombatError::Configuration(
                        cat3(subject, path, "` must be a non-symlink directory"),
                    ),
                );
            }
            Ok(())
        },
    }
}

/// What is wrong with a path that should hold this, if anything is there.
pub open spec fn exact_problem(path: Seq<char>, found: FoundPath, expected: Seq<char>) -> Option<
    Problem,
> {
    match found.kind {
        Err(message) => Some(Problem::Io(message@)),
        Ok(kind) => if kind == EntryKind::Missing {
            None
        } else if kind != EntryKind::File {
            Some(
                Problem::Configuration(
                    "reserved scaffold path `"@ + path
                        + "` must be a regular non-symlink file"@,
                ),
            )
        } else {
            match found.text {
                Err(message) => Some(Problem::Io(message@)),
                Ok(text) => configured(
                    problem_if(
                        text@ != expected,
                        "reserved scaffold path `"@ + path
                            + "` already contains different content; initialization will not overwrite it"@,
                    ),
                ),
            }
        },
    }
}

/// Refuses a path that holds something else.
pub fn preflight_exact(path: &str, found: &FoundPath, expected: &str) -> (r: Result<()>)
    ensures
        settles(r, exact_problem(path@, *found, expected@)),
{
    let kind = match &found.kind {
        Err(message) => {
            return Err(WombatError::Io(message.clone()));
        },
        Ok(kind) => *kind,
    };
    if kind == EntryKind::Missing {
        return Ok(());
    }
    if kind != EntryKind::File {
        return Err(
            WombatError::Configuration(
                cat3(
                    "reserved scaffold path `",
                    path,
                    "` must be a regular non-symlink file",
                ),
            ),
        );
    }
    match &found.text {
        Err(message) => Err(WombatError::Io(message.clone())),
        Ok(text) => {
            if !same(text.as_str(), expected) {
                return Err(
                    WombatError::Configuration(
                        cat3(
                            "reserved scaffold path `",
                            path,
                            "` already contains different content; initialization will not overwrite it",
                        ),
                    ),
                );
            }
            Ok(())
        },
    }
}

/// What is wrong with the list of what is ignored, if there is one.
pub open spec fn ignore_problem(path: Seq<char>, found: FoundPath) -> Option<Problem> {
    match found.kind {
        Err(message) => Some(Problem::Io(message@)),
        Ok(kind) => if kind == EntryKind::Missing {
            None
        } else if kind != EntryKind::File {
            Some(
                Problem::Configuration(
                    "existing `"@ + path + "` must be a regular non-symlink file"@,
                ),
            )
        } else {
            match found.text {
                Err(message) => Some(Problem::Io(message@)),
                Ok(_) => None,
            }
        },
    }
}

/// Whether a list that is there lacks the directory of builds.
pub open spec fn lacks_build(found: FoundPath) -> bool {
    found.kind matches Ok(EntryKind::File) && found.text matches Ok(text) && !lines(text@).contains(
        "/build/"@,
    )
}

/// Looks at the list of what is ignored. Returns what to look after.
pub fn preflight_gitignore(path: &str, found: &FoundPath) -> (r: Result<Option<String>>)
    ensures
        settles(r, ignore_problem(path@, *found)),
        r matches Ok(warning) ==> match warning {
            Some(text) => lacks_build(*found) && text@
                == "existing .gitignore was left unchanged; add `/build/` to ignore the default workspace"@,
            None => !lacks_build(*found),
        },
{
    let kind = match &found.kind {
        Err(message) => {
            return Err(WombatError::Io(message.clone()));
        },
        Ok(kind) => *kind,
    };
    if kind == EntryKind::Missing {
        return Ok(None);
    }
    if kind != EntryKind::File {
        return Err(
            WombatError::Configuration(
                cat3("existing `", path, "` must be a regular non-symlink file"),
            ),
        );
    }
    match &found.text {
        Err(message) => Err(WombatError::Io(message.clone())),
        Ok(text) => {
            if holds(&lines_of(text.as_str()), "/build/") {
                return Ok(None);
            }
            Ok(
                Some(
                    "existing .gitignore was left unchanged; add `/build/` to ignore the default workspace".to_string(),
                ),
            )
        },
    }
}

/// A place for a new repository as it was found.
#[derive(Debug, PartialEq)]
pub struct FoundRoot {
    /// The place
    pub root: std::result::Result<EntryKind, String>,
    /// Its root configuration
    pub configuration: FoundPath,
    /// Its directory of modules
    pub modules: std::result::Result<EntryKind, String>,
    /// Its first module
    pub auto: FoundPath,
    /// Its list of what is ignored
    pub ignored: FoundPath,
    /// The directories up to the place that are missing, the innermost first
    pub missing: Vec<String>,
    /// The directory that they are beneath, and what it is, where there is one
    pub parent: Option<(String, std::result::Result<EntryKind, String>)>,
}

/// What to make for a new repository, and what to look after.
#[derive(Debug, PartialEq)]
pub struct InitPlan {
    /// The directories to make, in their order
    pub directories: Vec<String>,
    /// The files to make and what they hold, in their order
    pub files: Vec<(String, &'static str)>,
    /// What to look after
    pub warning: Option<String>,
}

/// What is wrong with a place for a new repository before anything is made.
pub open spec fn scaffold_problem(root: Seq<char>, found: FoundRoot) -> Option<Problem> {
    either(
        directory_problem("initialization path `"@, root, found.root),
        either(
            exact_problem(
                path_join(root, "wombat.lua"@),
                found.configuration,
                root_text(),
            ),
            either(
                directory_problem(
                    "reserved scaffold path `"@,
                    path_join(root, "modules"@),
                    found.modules,
                ),
                either(
                    exact_problem(
                        path_join(path_join(root, "modules"@), "auto.lua"@),
                        found.auto,
                        auto_text(),
                    ),
                    ignore_problem(path_join(root, ".gitignore"@), found.ignored),
                ),
            ),
        ),
    )
}

/// What is wrong with what a place for a new repository is beneath.
pub open spec fn parent_problem(root: Seq<char>, found: FoundRoot) -> Option<Problem> {
    match found.parent {
        None => Some(
            Problem::Configuration("cannot find an existing parent for `"@ + root + "`"@),
        ),
        Some(parent) => match parent.1 {
            Err(message) => Some(Problem::Io(message@)),
            Ok(kind) => configured(
                problem_if(
                    kind != EntryKind::Directory,
                    "initialization parent `"@ + parent.0@
                        + "` must be a non-symlink directory"@,
                ),
            ),
        },
    }
}

/// The directories to make: those up to the place, the outermost first, and the one
/// of modules.
pub open spec fn directories_to_make(root: Seq<char>, found: FoundRoot) -> Seq<Seq<char>> {
    let chain = views(found.missing@).reverse();
    if found.modules matches Ok(EntryKind::Missing) {
        chain.push(path_join(root, "modules"@))
    } else {
        chain
    }
}

/// What files say.
pub open spec fn file_views(list: Seq<(String, &'static str)>) -> Seq<(Seq<char>, Seq<char>)> {
    Seq::new(list.len(), |i: int| (list[i].0@, list[i].1@))
}

/// A file to make, where nothing is there.
pub open spec fn file_to_make(
    list: Seq<(Seq<char>, Seq<char>)>,
    path: Seq<char>,
    found: FoundPath,
    text: Seq<char>,
) -> Seq<(Seq<char>, Seq<char>)> {
    if found.kind matches Ok(EntryKind::Missing) {
        list.push((path, text))
    } else {
        list
    }
}

/// The files to make.
pub open spec fn files_to_make(root: Seq<char>, found: FoundRoot) -> Seq<(Seq<char>, Seq<char>)> {
    file_to_make(
        file_to_make(
            file_to_make(
                Seq::empty(),
                path_join(root, "wombat.lua"@),
                found.configuration,
                root_text(),
            ),
            path_join(path_join(root, "modules"@), "auto.lua"@),
            found.auto,
            auto_text(),
        ),
        path_join(root, ".gitignore"@),
        found.ignored,
        ignore_text(),
    )
}

fn add_file(
    list: &mut Vec<(String, &'static str)>,
    path: &str,
    found: &FoundPath,
    text: &'static str,
)
    ensures
        file_views(final(list)@) == file_to_make(
            file_views(old(list)@),
            path@,
            *found,
            text@,
        ),
{
    let missing = match &found.kind {
        Ok(kind) => *kind == EntryKind::Missing,
        Err(_) => false,
    };
    if missing {
        let ghost sofar = file_views(list@);
        list.push((path.to_string(), text));
        assert(file_views(list@) =~= sofar.push((path@, text@)));
    }
}

fn reversed(list: &Vec<String>) -> (r: Vec<String>)
    ensures
        views(r@) == views(list@).reverse(),
{
    let ghost all = views(list@);
    let mut r: Vec<String> = Vec::new();
    let mut i: usize = list.len();
    assert(views(r@) =~= all.reverse().take(0));
    while i > 0
        invariant
            0 <= i <= list@.len(),
            all == views(list@),
            all.len() == list@.len(),
            views(r@) == all.reverse().take(all.len() - i),
        decreases i,
    {
        i -= 1;
        assert(all[i as int] == list@[i as int]@);
        push_text(&mut r, list[i].as_str());
        assert(all.reverse().take(all.len() - i) =~= all.reverse().take(all.len() - i - 1).push(
            all[i as int],
        ));
    }
    assert(all.reverse().take(all.len() as int) =~= all.reverse());
    r
}

/// Decides what to make for a new repository. Nothing that is there is overwritten.
pub fn initialize(root: &str, found: &FoundRoot) -> (r: Result<InitPlan>)
    ensures
        settles(r, either(scaffold_problem(root@, *found), parent_problem(root@, *found))),
        r matches Ok(plan) ==> {
            &&& views(plan.directories@) == directories_to_make(root@, *found)
            &&& file_views(plan.files@) == files_to_make(root@, *found)
            &&& plan.warning is Some <==> lacks_build(found.ignored)
            &&& plan.warning matches Some(text) ==> text@
                == "existing .gitignore was left unchanged; add `/build/` to ignore the default workspace"@
        },
{
    let root_file = join_path(root, "wombat.lua");
    let modules = join_path(root, "modules");
    let auto_file = join_path(modules.as_str(), "auto.lua");
    let gitignore = join_path(root, ".gitignore");
    check_directory("initialization path `", root, &found.root)?;
    preflight_exact(
        root_file.as_str(),
        &found.configuration,
        "local w = require(\"wombat\")\n\nw.use(\"auto\")\n",
    )?;
    check_directory("reserved scaffold path `", modules.as_str(), &found.modules)?;
    preflight_exact(
        auto_file.as_str(),
        &found.auto,
        "local w = require(\"wombat\")\n\n-- wombat:add begin\n-- wombat:add end\n",
    )?;
    let warning = preflight_gitignore(gitignore.as_str(), &found.ignored)?;
    match &found.parent {
        None => {
            return Err(
                WombatError::Configuration(
                    cat3("cannot find an existing parent for `", root, "`"),
                ),
            );
        },
        Some(parent) => match &parent.1 {
            Err(message) => {
                return Err(WombatError::Io(message.clone()));
            },
            Ok(kind) => {
                if *kind != EntryKind::Directory {
                    return Err(
                        WombatError::Configuration(
                            cat3(
                                "initialization parent `",
                                parent.0.as_str(),
                                "` must be a non-symlink directory",
                            ),
                        ),
                    );
                }
            },
        },
    }
    let mut directories = reversed(&found.missing);
    let no_modules = match &found.modules {
        Ok(kind) => *kind == EntryKind::Missing,
        Err(_) => false,
    };
    if no_modules {
        push_text(&mut directories, modules.as_str());
    }
    let mut files: Vec<(String, &'static str)> = Vec::new();
    assert(file_views(files@) =~= Seq::empty());
    add_file(
        &mut files,
        root_file.as_str(),
        &found.configuration,
        "local w = require(\"wombat\")\n\nw.use(\"auto\")\n",
    );
    add_file(
        &mut files,
        auto_file.as_str(),
        &found.auto,
        "local w = require(\"wombat\")\n\n-- wombat:add begin\n-- wombat:add end\n",
    );
    add_file(&mut files, gitignore.as_str(), &found.ignored, "/build/\n");
    Ok(InitPlan { directories, files, warning })
}

/// What became of a new repository once its plan was carried out.
pub fn finish_initialization(root: &str, plan: InitPlan) -> (r: InitOutcome)
    ensures
        r.root@ == root@,
        r.status == if plan.directories@.len() == 0 && plan.files@.len() == 0 {
            InitStatus::AlreadyInitialized
        } else {
            InitStatus::Initialized
        },
        r.warning == plan.warning,
{
    let status = if plan.directories.len() == 0 && plan.files.len() == 0 {
        InitStatus::AlreadyInitialized
    } else {
        InitStatus::Initialized
    };
    InitOutcome { root: root.to_string(), status, warning: plan.warning }
}

/// Making a repository twice makes nothing the second time: where everything is there
/// there is nothing to make.
pub proof fn law_initialized_repositories_stay(root: Seq<char>, found: FoundRoot)
    requires
        scaffold_problem(root, found) is None,
        found.missing@.len() == 0,
        !(found.modules matches Ok(EntryKind::Missing)),
        !(found.configuration.kind matches Ok(EntryKind::Missing)),
        !(found.auto.kind matches Ok(EntryKind::Missing)),
        !(found.ignored.kind matches Ok(EntryKind::Missing)),
    ensures
        directories_to_make(root, found).len() == 0,
        files_to_make(root, found).len() == 0,
{
    assert(views(found.missing@).len() == 0);
}

/// Initialization overwrites nothing. A file is made exactly where none is, and where it is
/// let run over files of its own they hold what it would have written; a directory stands
/// where there is one or nothing.
pub proof fn law_initialization_overwrites_nothing(root: Seq<char>, found: FoundRoot)
    requires
        scaffold_problem(root, found) is None,
    ensures
        ({
            let made = files_to_make(root, found);
            let script = path_join(root, "wombat.lua"@);
            let auto = path_join(path_join(root, "modules"@), "auto.lua"@);
            let ignored = path_join(root, ".gitignore"@);
            &&& found.configuration.kind is Ok && found.auto.kind is Ok && found.ignored.kind is Ok
            &&& made.len() == (if found.configuration.kind->Ok_0 == EntryKind::Missing {
                1int
            } else {
                0
            }) + (if found.auto.kind->Ok_0 == EntryKind::Missing {
                1int
            } else {
                0
            }) + (if found.ignored.kind->Ok_0 == EntryKind::Missing {
                1int
            } else {
                0
            })
            &&& found.configuration.kind->Ok_0 == EntryKind::Missing ==> made.contains(
                (script, root_text()),
            )
            &&& found.auto.kind->Ok_0 == EntryKind::Missing ==> made.contains((auto, auto_text()))
            &&& found.ignored.kind->Ok_0 == EntryKind::Missing ==> made.contains(
                (ignored, ignore_text()),
            )
            &&& found.configuration.kind->Ok_0 != EntryKind::Missing
                ==> found.configuration.kind->Ok_0 == EntryKind::File && (
            found.configuration.text matches Ok(text) && text@ == root_text())
            &&& found.auto.kind->Ok_0 != EntryKind::Missing ==> found.auto.kind->Ok_0
                == EntryKind::File && (found.auto.text matches Ok(text) && text@ == auto_text())
            &&& found.ignored.kind->Ok_0 != EntryKind::Missing ==> found.ignored.kind->Ok_0
                == EntryKind::File
            &&& found.root matches Ok(kind) && (kind == EntryKind::Missing || kind
                == EntryKind::Directory)
            &&& found.modules matches Ok(kind) && (kind == EntryKind::Missing || kind
                == EntryKind::Directory)
            &&& found.modules->Ok_0 == EntryKind::Missing <==> directories_to_make(
                root,
                found,
            ).len() == found.missing@.len() + 1
        }),
{
    let script = path_join(root, "wombat.lua"@);
    let auto = path_join(path_join(root, "modules"@), "auto.lua"@);
    let none: Seq<(Seq<char>, Seq<char>)> = Seq::empty();
    let one = file_to_make(none, script, found.configuration, root_text());
    let two = file_to_make(one, auto, found.auto, auto_text());
    let made = files_to_make(root, found);
    if found.configuration.kind->Ok_0 == EntryKind::Missing {
        assert(one[0] == (script, root_text()));
        assert(two[0] == one[0] && made[0] == one[0]);
    }
    if found.auto.kind->Ok_0 == EntryKind::Missing {
        assert(two[one.len() as int] == (auto, auto_text()));
        assert(made[one.len() as int] == two[one.len() as int]);
    }
    if found.ignored.kind->Ok_0 == EntryKind::Missing {
        assert(made[two.len() as int] == (path_join(root, ".gitignore"@), ignore_text()));
    }
}

/// The directories that are missing are made from the outermost in, each once.
pub proof fn law_directories_are_made_from_outside_in(root: Seq<char>, found: FoundRoot, i: int)
    requires
        0 <= i < found.missing@.len(),
    ensures
        directories_to_make(root, found)[i] == found.missing@[found.missing@.len() - 1 - i]@,
        found.modules matches Ok(EntryKind::Missing) ==> directories_to_make(root, found).last()
            == path_join(root, "modules"@),
{
}

} // verus!
