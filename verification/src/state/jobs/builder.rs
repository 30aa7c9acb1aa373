//! The builder: from an expression to a job that is ready to run.

use vstd::prelude::*;
use crate::state::jobs::{BuiltinHandler, Configuration, Error, FdOption, Job, Run, Status};
use crate::syntax::ast::{Argument, ArgumentView, Expr, ExprView};
use crate::syntax::ast;
use crate::syntax::tokens::{ComponentView, StringLiteralComponent};
use crate::syntax::tokens;
use crate::sys::Os;
use crate::sys;
use crate::text;

verus! {

/// The environment variables a job is built against, as name and value;
/// where a name occurs twice the first occurrence counts.
#[derive(Debug)]
pub struct Environment {
    pub vars: Vec<(String, String)>,
}

/// The value the first pair with the given name holds.
pub open spec fn value_in(vars: Seq<(String, String)>, name: Seq<char>) -> Option<Seq<char>>
    decreases vars.len(),
{
    if vars.len() == 0 {
        None
    } else if vars[0].0@ == name {
        Some(vars[0].1@)
    } else {
        value_in(vars.drop_first(), name)
    }
}

impl Environment {
    /// The value of a variable, `None` where it is not set.
    pub open spec fn lookup(&self, name: Seq<char>) -> Option<Seq<char>> {
        value_in(self.vars@, name)
    }

    /// An environment without variables.
    pub fn new() -> (env: Environment)
        ensures
            env.vars@.len() == 0,
    {
        Environment { vars: Vec::new() }
    }

    /// The value of a variable, `None` where it is not set.
    pub fn get(&self, name: &str) -> (r: Option<String>)
        ensures
            match r {
                Some(v) => self.lookup(name@) == Some(v@),
                None => self.lookup(name@) is None,
            },
    {
        let mut i: usize = 0;
        assert(self.vars@.skip(0) =~= self.vars@);
        while i < self.vars.len()
            invariant
                i <= self.vars.len(),
                self.lookup(name@) == value_in(self.vars@.skip(i as int), name@),
            decreases self.vars.len() - i,
        {
            assert(self.vars@.skip(i as int).drop_first() =~= self.vars@.skip(i + 1));
            if text::same_text(self.vars[i].0.as_str(), name) {
                return Some(self.vars[i].1.clone());
            }
            i += 1;
        }
        None
    }
}

/// What one component stands for: its own text, or the value of the
/// variable it names, nothing where that is not set.
pub open spec fn component_text(c: ComponentView, env: Environment) -> Seq<char> {
    match c {
        ComponentView::Literal(t) => t,
        ComponentView::EnvVar(n) => match env.lookup(n) {
            Some(v) => v,
            None => Seq::empty(),
        },
    }
}

/// What a string literal stands for: what its components stand for, one
/// after the other.
pub open spec fn joined_text(components: Seq<ComponentView>, env: Environment) -> Seq<char>
    decreases components.len(),
{
    if components.len() == 0 {
        Seq::empty()
    } else {
        joined_text(components.drop_last(), env) + component_text(components.last(), env)
    }
}

/// The text a string literal stands for in the given environment.
pub fn join_components(components: &[StringLiteralComponent], env: &Environment) -> (r: String)
    ensures
        r@ == joined_text(tokens::components_view(components@), *env),
{
    let ghost all = tokens::components_view(components@);
    let mut r = String::new();
    let mut i: usize = 0;
    assert(all.take(0) =~= Seq::<ComponentView>::empty());
    while i < components.len()
        invariant
            i <= components.len(),
            all == tokens::components_view(components@),
            r@ == joined_text(all.take(i as int), *env),
        decreases components.len() - i,
    {
        assert(all.take(i + 1).drop_last() =~= all.take(i as int));
        assert(all.take(i + 1).last() == components@[i as int]@);
        match &components[i] {
            StringLiteralComponent::Literal(t) => {
                r.append(t.as_str());
            },
            StringLiteralComponent::EnvVar(n) => {
                match env.get(n.as_str()) {
                    Some(v) => {
                        r.append(v.as_str());
                    },
                    None => {
                        assert(r@ + Seq::<char>::empty() =~= r@);
                    },
                }
            },
        }
        i += 1;
    }
    assert(all.take(components.len() as int) =~= all);
    r
}

/// Whether a character means something to the file-name matcher.
pub open spec fn is_glob_char(c: char) -> bool {
    c == '*' || c == '?' || c == '[' || c == ']'
}

/// A text in which no character means anything to the file-name matcher.
pub open spec fn is_glob_free(s: Seq<char>) -> bool {
    forall|i: int| 0 <= i < s.len() ==> !is_glob_char(#[trigger] s[i])
}

/// Whether no character of the text means anything to the file-name
/// matcher.
pub fn glob_free(s: &str) -> (r: bool)
    ensures
        r == is_glob_free(s@),
{
    let v = text::chars_of(s);
    let mut i: usize = 0;
    while i < v.len()
        invariant
            i <= v.len(),
            v@ == s@,
            forall|j: int| 0 <= j < i ==> !is_glob_char(#[trigger] v@[j]),
        decreases v.len() - i,
    {
        let c = v[i];
        if c == '*' || c == '?' || c == '[' || c == ']' {
            return false;
        }
        i += 1;
    }
    true
}

/// Calls `glob::glob` and walks what it yields. `None` when the pattern is
/// refused; otherwise one entry for each path the pattern matched, in the
/// order they came: the path as text, or `None` for an entry that could
/// not be read or is not UTF-8.
#[verifier::external_body]
fn glob_paths(pattern: &str) -> (r: Option<Vec<Option<String>>>) {
    match glob::glob(pattern) {
        Ok(paths) => Some(
            paths.map(|entry| entry.ok().and_then(|p| p.to_str().map(String::from))).collect(),
        ),
        Err(_) => None,
    }
}

/// Calls `std::path::Path::canonicalize`, which resolves a path against
/// the file system. `Some(resolved)` where the path names something and the
/// resolved path is UTF-8, `None` otherwise.
#[verifier::external_body]
fn canonicalize(path: &str) -> (r: Option<String>) {
    std::path::Path::new(path).canonicalize().ok().and_then(|p| p.to_str().map(String::from))
}

/// Every entry is a path.
pub open spec fn all_found(found: Seq<Option<String>>) -> bool {
    forall|i: int| 0 <= i < found.len() ==> (#[trigger] found[i]) is Some
}

/// The arguments a word becomes once the matcher has answered: the paths
/// it matched where it matched at least one and every one of them could be
/// read, the word itself otherwise.
pub open spec fn expansion(word: Seq<char>, found: Option<Seq<Option<String>>>) -> Seq<Seq<char>> {
    match found {
        Some(entries) => if entries.len() > 0 && all_found(entries) {
            Seq::new(entries.len(), |i: int| entries[i]->0@)
        } else {
            seq![word]
        },
        None => seq![word],
    }
}

/// The matcher's answer as a mathematical value.
pub open spec fn answer_view(found: Option<Vec<Option<String>>>) -> Option<Seq<Option<String>>> {
    match found {
        Some(v) => Some(v@),
        None => None,
    }
}

/// The arguments a word becomes once the matcher has answered, see
/// [`expansion`].
pub fn expand_literal(word: String, found: Option<Vec<Option<String>>>) -> (r: Vec<String>)
    ensures
        text::views(r@) == expansion(word@, answer_view(found)),
{
    let mut r: Vec<String> = Vec::new();
    let ghost answer = answer_view(found);
    match found {
        Some(entries) => {
            assert(answer == Some(entries@));
            let mut i: usize = 0;
            let mut good = entries.len() > 0;
            while i < entries.len()
                invariant
                    i <= entries.len(),
                    good ==> r@.len() == i,
                    good ==> entries@.len() > 0,
                    good ==> forall|j: int| 0 <= j < i ==> (#[trigger] entries@[j]) is Some && r@[j]@
                        == entries@[j]->0@,
                    !good ==> entries@.len() == 0 || !all_found(entries@),
                decreases entries.len() - i,
            {
                match &entries[i] {
                    Some(p) => {
                        if good {
                            r.push(p.clone());
                        }
                    },
                    None => {
                        good = false;
                        assert(!all_found(entries@)) by {
                            assert(entries@[i as int] is None);
                        }
                    },
                }
                i += 1;
            }
            if good {
                assert(all_found(entries@));
                assert(text::views(r@) =~= expansion(word@, answer));
                r
            } else {
                let mut one: Vec<String> = Vec::new();
                one.push(word);
                assert(text::views(one@) =~= expansion(word@, answer));
                one
            }
        },
        None => {
            r.push(word);
            assert(text::views(r@) =~= seq![word@]);
            r
        },
    }
}

/// The arguments a word stands for. A word in which nothing means anything
/// to the file-name matcher stands for itself; any other word is handed to
/// the matcher and becomes what [`expansion`] says.
pub fn literal_arguments(word: String) -> (r: Vec<String>)
    ensures
        r@.len() >= 1,
        is_glob_free(word@) ==> text::views(r@) == seq![word@],
{
    if glob_free(word.as_str()) {
        let mut r: Vec<String> = Vec::new();
        r.push(word);
        assert(text::views(r@) =~= seq![word@]);
        r
    } else {
        let found = glob_paths(word.as_str());
        let ghost w = word@;
        let r = expand_literal(word, found);
        assert(text::views(r@).len() == r@.len());
        r
    }
}

/// The mathematical value of an [`FdOption`].
pub enum FdOptionView {
    Append(Seq<char>),
    Overwrite(Seq<char>),
    Input(Seq<char>),
    Fd(i32),
}

impl View for FdOption {
    type V = FdOptionView;

    open spec fn view(&self) -> FdOptionView {
        match self {
            FdOption::Append(p) => FdOptionView::Append(p@),
            FdOption::Overwrite(p) => FdOptionView::Overwrite(p@),
            FdOption::Input(p) => FdOptionView::Input(p@),
            FdOption::Fd(fd) => FdOptionView::Fd(*fd),
        }
    }
}

/// The values of a list of redirections.
pub open spec fn options_view(options: Seq<(i32, FdOption)>) -> Seq<(i32, FdOptionView)> {
    Seq::new(options.len(), |i: int| (options[i].0, options[i].1@))
}

/// The list with the redirection of `fd` set to `option`: in the place of
/// the redirection `fd` had, at the end where it had none.
pub open spec fn with_option(options: Seq<(i32, FdOptionView)>, fd: i32, option: FdOptionView) -> Seq<
    (i32, FdOptionView),
>
    decreases options.len(),
{
    if options.len() == 0 {
        seq![(fd, option)]
    } else if options[0].0 == fd {
        seq![(fd, option)] + options.drop_first()
    } else {
        seq![options[0]] + with_option(options.drop_first(), fd, option)
    }
}

/// No descriptor is redirected twice.
pub open spec fn distinct_fds(options: Seq<(i32, FdOptionView)>) -> bool {
    forall|i: int, j: int| 0 <= i < j < options.len() ==> options[i].0 != options[j].0
}

proof fn lemma_with_option_skips(options: Seq<(i32, FdOptionView)>, fd: i32, option: FdOptionView, k: int)
    requires
        0 <= k <= options.len(),
        forall|j: int| 0 <= j < k ==> options[j].0 != fd,
    ensures
        with_option(options, fd, option) =~= options.take(k) + with_option(options.skip(k), fd, option),
    decreases k,
{
    if k > 0 {
        lemma_with_option_skips(options.drop_first(), fd, option, k - 1);
        assert(options.drop_first().take(k - 1) =~= options.take(k).drop_first());
        assert(options.drop_first().skip(k - 1) =~= options.skip(k));
    } else {
        assert(options.skip(0) =~= options);
    }
}

/// Setting a redirection keeps every descriptor in its place, adds at most
/// one at the end, and never redirects a descriptor twice.
pub proof fn lemma_with_option_shape(options: Seq<(i32, FdOptionView)>, fd: i32, option: FdOptionView)
    ensures
        options.len() <= with_option(options, fd, option).len() <= options.len() + 1,
        forall|i: int|
            0 <= i < options.len() ==> (#[trigger] with_option(options, fd, option)[i]).0
                == options[i].0,
        with_option(options, fd, option).len() > options.len() ==> with_option(
            options,
            fd,
            option,
        ).last().0 == fd,
        with_option(options, fd, option).len() > options.len() ==> forall|j: int|
            0 <= j < options.len() ==> (#[trigger] options[j]).0 != fd,
        distinct_fds(options) ==> distinct_fds(with_option(options, fd, option)),
    decreases options.len(),
{
    let out = with_option(options, fd, option);
    if options.len() == 0 {
    } else if options[0].0 == fd {
        assert(out.len() == options.len());
        assert(forall|i: int| 1 <= i < out.len() ==> out[i] == options[i]);
    } else {
        let rest = options.drop_first();
        lemma_with_option_shape(rest, fd, option);
        let inner = with_option(rest, fd, option);
        assert(out.len() == inner.len() + 1);
        assert(forall|i: int| 1 <= i < out.len() ==> out[i] == inner[i - 1]);
        assert(forall|i: int| 0 <= i < rest.len() ==> rest[i] == options[i + 1]);
        assert forall|i: int| 0 <= i < options.len() implies (#[trigger] out[i]).0 == options[i].0 by {
            if i > 0 {
                assert(inner[i - 1].0 == rest[i - 1].0);
            }
        }
        if out.len() > options.len() {
            assert(inner.len() > rest.len());
            assert(out.last() == inner.last());
            assert forall|j: int| 0 <= j < options.len() implies (#[trigger] options[j]).0 != fd by {
                if j > 0 {
                    assert(rest[j - 1].0 != fd);
                }
            }
        }
        if distinct_fds(options) {
            assert(distinct_fds(rest)) by {
                assert forall|i: int, j: int| 0 <= i < j < rest.len() implies rest[i].0 != rest[j].0 by {
                    assert(options[i + 1].0 != options[j + 1].0);
                }
            }
            assert forall|i: int, j: int| 0 <= i < j < out.len() implies out[i].0 != out[j].0 by {
                if i == 0 {
                    if j - 1 < rest.len() {
                        assert(inner[j - 1].0 == rest[j - 1].0);
                        assert(options[0].0 != options[j].0);
                    } else {
                        assert(inner.last().0 == fd);
                    }
                } else {
                    assert(inner[i - 1].0 != inner[j - 1].0);
                }
            }
        }
    }
}

/// Sets the redirection of a descriptor: in the place of the one it had,
/// at the end where it had none.
pub fn set_option(options: &mut Vec<(i32, FdOption)>, fd: i32, option: FdOption)
    ensures
        options_view(final(options)@) == with_option(options_view(old(options)@), fd, option@),
{
    let ghost before = options_view(options@);
    let mut i: usize = 0;
    while i < options.len()
        invariant
            i <= options.len(),
            *options == *old(options),
            before == options_view(options@),
            forall|j: int| 0 <= j < i ==> before[j].0 != fd,
        decreases options.len() - i,
    {
        if options[i].0 == fd {
            proof {
                lemma_with_option_skips(before, fd, option@, i as int);
            }
            options.set(i, (fd, option));
            assert(options_view(options@) =~= before.take(i as int) + (seq![(fd, option@)]
                + before.skip(i as int).drop_first()));
            return ;
        }
        i += 1;
    }
    proof {
        lemma_with_option_skips(before, fd, option@, before.len() as int);
        assert(before.skip(before.len() as int) =~= Seq::empty());
        assert(before.take(before.len() as int) =~= before);
    }
    options.push((fd, option));
    assert(options_view(options@) =~= before + seq![(fd, option@)]);
}

/// The redirection an argument asks for, where it asks for one.
pub open spec fn option_of(arg: ArgumentView, env: Environment) -> Option<(i32, FdOptionView)> {
    match arg {
        ArgumentView::Redirect(fd, p) => Some((fd, FdOptionView::Overwrite(joined_text(p, env)))),
        ArgumentView::RedirectFD(fd, target) => Some((fd, FdOptionView::Fd(target))),
        ArgumentView::Append(fd, p) => Some((fd, FdOptionView::Append(joined_text(p, env)))),
        ArgumentView::Input(fd, p) => Some((fd, FdOptionView::Input(joined_text(p, env)))),
        _ => None,
    }
}

/// The redirections a command's arguments ask for, a later one for a
/// descriptor taking the place of an earlier one.
pub open spec fn options_of(args: Seq<ArgumentView>, env: Environment) -> Seq<(i32, FdOptionView)>
    decreases args.len(),
{
    if args.len() == 0 {
        Seq::empty()
    } else {
        let before = options_of(args.drop_last(), env);
        match option_of(args.last(), env) {
            Some((fd, option)) => with_option(before, fd, option),
            None => before,
        }
    }
}

/// Whether `&` is among the arguments.
pub open spec fn has_background(args: Seq<ArgumentView>) -> bool {
    exists|i: int| 0 <= i < args.len() && (#[trigger] args[i]) is Background
}

/// Every word among the arguments stands for itself: none is a sub-shell
/// and none holds a character that means something to the file-name
/// matcher.
pub open spec fn words_are_plain(args: Seq<ArgumentView>, env: Environment) -> bool {
    forall|i: int|
        0 <= i < args.len() ==> match #[trigger] args[i] {
            ArgumentView::Subshell(_) => false,
            ArgumentView::Literal(p) => is_glob_free(joined_text(p, env)),
            _ => true,
        }
}

/// The texts the words among the arguments stand for, in order.
pub open spec fn plain_words(args: Seq<ArgumentView>, env: Environment) -> Seq<Seq<char>>
    decreases args.len(),
{
    if args.len() == 0 {
        Seq::empty()
    } else {
        let before = plain_words(args.drop_last(), env);
        match args.last() {
            ArgumentView::Literal(p) => before.push(joined_text(p, env)),
            _ => before,
        }
    }
}

/// The candidate a directory of the search path gives for a name: the
/// name under the directory, with one `/` between them where the directory
/// does not end in one; the name alone where the directory is empty or the
/// name starts at the root.
pub open spec fn candidate(dir: Seq<char>, name: Seq<char>) -> Seq<char> {
    if dir.len() == 0 || (name.len() > 0 && name[0] == '/') {
        name
    } else if dir.last() == '/' {
        dir + name
    } else {
        dir + seq!['/'] + name
    }
}

/// The candidate a directory of the search path gives for a name, see
/// [`candidate`].
pub fn candidate_path(dir: &str, name: &str) -> (r: String)
    ensures
        r@ == candidate(dir@, name@),
{
    let d = text::chars_of(dir);
    let n = text::chars_of(name);
    if d.len() == 0 || (n.len() > 0 && n[0] == '/') {
        name.to_owned()
    } else {
        let mut r = dir.to_owned();
        if d[d.len() - 1] != '/' {
            text::push_char(&mut r, '/');
        }
        r.append(name);
        r
    }
}

/// Which file a name that is no builtin runs: the file the name resolves
/// to where that is a regular file; otherwise, for a name without `/`, the
/// first candidate from the search path that is a regular file.
pub open spec fn chosen(
    name: Seq<char>,
    canonical: Option<(Seq<char>, bool)>,
    candidates: Seq<(Seq<char>, bool)>,
) -> Option<Seq<char>> {
    match canonical {
        Some((path, true)) => Some(path),
        _ => if name.contains('/') {
            None
        } else {
            first_regular(candidates)
        },
    }
}

/// The first candidate that is marked as a regular file.
pub open spec fn first_regular(candidates: Seq<(Seq<char>, bool)>) -> Option<Seq<char>>
    decreases candidates.len(),
{
    if candidates.len() == 0 {
        None
    } else if candidates[0].1 {
        Some(candidates[0].0)
    } else {
        first_regular(candidates.drop_first())
    }
}

/// The values of a list of candidates.
pub open spec fn candidates_view(c: Seq<(String, bool)>) -> Seq<(Seq<char>, bool)> {
    Seq::new(c.len(), |i: int| (c[i].0@, c[i].1))
}

/// What a name resolves to, as a mathematical value.
pub open spec fn resolved_view(canonical: Option<(String, bool)>) -> Option<(Seq<char>, bool)> {
    match canonical {
        Some((p, f)) => Some((p@, f)),
        None => None,
    }
}

/// Picks the file to run for a name that is no builtin. `canonical` is
/// what the name resolves to, with whether that is a regular file;
/// `candidates` are the candidates from the search path, in its order, each
/// with whether it is a regular file. Where [`chosen`] finds none the name
/// comes back in [`Error::CommandNotFound`].
pub fn choose_executable(
    name: &str,
    canonical: Option<(String, bool)>,
    candidates: &[(String, bool)],
) -> (r: Result<String, Error>)
    ensures
        match chosen(name@, resolved_view(canonical), candidates_view(candidates@)) {
            Some(path) => r matches Ok(p) && p@ == path,
            None => r matches Err(Error::CommandNotFound(n)) && n@ == name@,
        },
{
    let ghost all = candidates_view(candidates@);
    let ghost goal = chosen(name@, resolved_view(canonical), all);
    match canonical {
        Some((p, true)) => {
            return Ok(p);
        },
        _ => {},
    }
    if text::has_char(name, '/') {
        return Err(Error::CommandNotFound(name.to_owned()));
    }
    let mut i: usize = 0;
    assert(all.skip(0) =~= all);
    while i < candidates.len()
        invariant
            i <= candidates.len(),
            all == candidates_view(candidates@),
            goal == chosen(name@, resolved_view(canonical), all),
            goal == first_regular(all.skip(i as int)),
        decreases candidates.len() - i,
    {
        assert(all.skip(i as int).drop_first() =~= all.skip(i + 1));
        assert(all.skip(i as int)[0] == (candidates@[i as int].0@, candidates@[i as int].1));
        if candidates[i].1 {
            return Ok(candidates[i].0.clone());
        }
        i += 1;
    }
    Err(Error::CommandNotFound(name.to_owned()))
}

/// Whether the mode the file system reports is that of a regular file:
/// its bits under `mask`, the mask of the file-type bits, are `regular`,
/// those of a regular file. No mode is no file.
pub fn is_regular_mode(mode: Option<u32>, mask: u32, regular: u32) -> (r: bool)
    ensures
        r == match mode {
            Some(m) => m & mask == regular,
            None => false,
        },
{
    match mode {
        Some(m) => (m & mask) == regular,
        None => false,
    }
}

/// Whether the path names a regular file, see [`is_regular_mode`].
pub(crate) fn is_regular_file(path: &str) -> (r: bool) {
    is_regular_mode(sys::stat_mode(path), sys::file_type_mask(), sys::regular_file_type())
}

/// The candidates the directories of a search path give for a name, in
/// the order of the directories, each with whether it is a regular
/// file.
pub open spec fn path_candidates(dirs: Seq<Seq<char>>, name: Seq<char>, regular: Seq<bool>) -> Seq<
    (Seq<char>, bool),
> {
    Seq::new(dirs.len(), |i: int| (candidate(dirs[i], name), regular[i]))
}

/// What the file system answered: what the name resolves to, and for
/// each directory of the search path whether its candidate is a regular
/// file. Any answer can be given.
pub open spec fn answered(canonical: Option<(Seq<char>, bool)>, regular: Seq<bool>) -> bool {
    true
}

/// The file found for a name along a search path, `None` where none is
/// found: what [`chosen`] picks, for some answer of the file system,
/// among what the name resolves to and the candidates of the
/// directories that the search path names between its colons.
pub open spec fn found(name: Seq<char>, search_path: Seq<char>, file: Option<Seq<char>>) -> bool {
    exists|canonical: Option<(Seq<char>, bool)>, regular: Seq<bool>|
        {
            &&& #[trigger] answered(canonical, regular)
            &&& regular.len() == text::split_on(search_path, ':').len()
            &&& chosen(name, canonical, path_candidates(text::split_on(search_path, ':'), name, regular)) == file
        }
}

/// Finds the file to run for a name that is no builtin: asks the file
/// system what the name resolves to and which candidates from the search
/// path are regular files, and lets [`choose_executable`] pick, see
/// [`found`]. Without a search path in the environment nothing is looked
/// for.
pub fn resolve_executable(name: &str, env: &Environment) -> (r: Result<String, Error>)
    ensures
        env.lookup("PATH"@) is None <==> r matches Err(Error::CorruptPath),
        r matches Err(e) ==> e is CorruptPath || (e matches Error::CommandNotFound(n) && n@ == name@),
        env.lookup("PATH"@) matches Some(search_path) ==> match r {
            Ok(path) => found(name@, search_path, Some(path@)),
            Err(_) => found(name@, search_path, None),
        },
{
    match env.get("PATH") {
        None => Err(Error::CorruptPath),
        Some(path_var) => {
            let canonical = match canonicalize(name) {
                Some(p) => {
                    let regular = is_regular_file(p.as_str());
                    Some((p, regular))
                },
                None => None,
            };
            let dirs = text::split(path_var.as_str(), ':');
            let ghost places = text::views(dirs@);
            let ghost mut flags: Seq<bool> = Seq::empty();
            let mut candidates: Vec<(String, bool)> = Vec::new();
            let mut i: usize = 0;
            while i < dirs.len()
                invariant
                    i <= dirs.len(),
                    places == text::views(dirs@),
                    candidates@.len() == i,
                    flags.len() == i,
                    forall|j: int|
                        0 <= j < i ==> (#[trigger] candidates@[j]).0@ == candidate(places[j], name@)
                            && candidates@[j].1 == flags[j],
                decreases dirs.len() - i,
            {
                let c = candidate_path(dirs[i].as_str(), name);
                let regular = is_regular_file(c.as_str());
                candidates.push((c, regular));
                proof {
                    flags = flags.push(regular);
                }
                i += 1;
            }
            proof {
                assert(candidates_view(candidates@) =~= path_candidates(places, name@, flags));
                assert(answered(resolved_view(canonical), flags));
            }
            choose_executable(name, canonical, candidates.as_slice())
        },
    }
}

/// The text is what collapsing the white space of some output gives.
pub open spec fn is_collapsed(t: Seq<char>) -> bool {
    exists|output: Seq<char>| t == #[trigger] text::collapsed(output)
}

/// The words one argument can stand for: a literal stands for at least
/// one word, and for its own text where nothing in it means anything to
/// the file-name matcher; a sub-shell stands for one word, its output
/// with the white space collapsed; any other argument stands for none.
pub open spec fn stands_for(arg: ArgumentView, env: Environment, words: Seq<Seq<char>>) -> bool {
    match arg {
        ArgumentView::Literal(p) => words.len() >= 1 && (is_glob_free(joined_text(p, env)) ==> words
            == seq![joined_text(p, env)]),
        ArgumentView::Subshell(_) => words.len() == 1 && is_collapsed(words[0]),
        _ => words.len() == 0,
    }
}

/// The words of the lists, one list after the other.
pub open spec fn flat(lists: Seq<Seq<Seq<char>>>) -> Seq<Seq<char>>
    decreases lists.len(),
{
    if lists.len() == 0 {
        Seq::empty()
    } else {
        flat(lists.drop_last()) + lists.last()
    }
}

/// The lists are what the arguments stand for, one list for each
/// argument.
pub open spec fn lists_of(args: Seq<ArgumentView>, env: Environment, lists: Seq<Seq<Seq<char>>>) -> bool {
    &&& lists.len() == args.len()
    &&& forall|i: int| 0 <= i < args.len() ==> stands_for(args[i], env, #[trigger] lists[i])
}

/// The words are what the arguments stand for, in the order of the
/// arguments, see [`stands_for`].
pub open spec fn words_of(args: Seq<ArgumentView>, env: Environment, words: Seq<Seq<char>>) -> bool {
    exists|lists: Seq<Seq<Seq<char>>>| #[trigger] lists_of(args, env, lists) && flat(lists) == words
}

/// What holds of a job that was built from an expression.
pub open spec fn built(e: ExprView, env: Environment, job: Job) -> bool
    decreases e,
{
    &&& job.fresh()
    &&& job.output is None
    &&& job.background == in_background(e)
    &&& match e {
        ExprView::Pipeline(l, r) => {
            &&& job.configuration matches Configuration::Pipeline(left, right)
            &&& built(*l, env, *left)
            &&& built(*r, env, *right)
        },
        ExprView::Command(name, args) => {
            &&& job.background == has_background(args)
            &&& match job.configuration {
                Configuration::Builtin(n, a, o) => {
                    &&& n@ == joined_text(name, env)
                    &&& options_view(o@) == options_of(args, env)
                    &&& words_of(args, env, text::views(a@))
                    &&& words_are_plain(args, env) ==> text::views(a@) == plain_words(args, env)
                },
                Configuration::External(path, a, o) => {
                    &&& env.lookup("PATH"@) matches Some(search_path) && found(
                        joined_text(name, env),
                        search_path,
                        Some(path@),
                    )
                    &&& options_view(o@) == options_of(args, env)
                    &&& words_of(args, env, text::views(a@))
                    &&& words_are_plain(args, env) ==> text::views(a@) == plain_words(args, env)
                },
                Configuration::Pipeline(_, _) => false,
            }
        },
    }
}

/// Whether the expression holds a sub-shell: a command does where one of
/// its arguments is one, a pipeline where one of its sides does.
pub open spec fn has_subshell(e: ExprView) -> bool
    decreases e,
{
    match e {
        ExprView::Pipeline(l, r) => has_subshell(*l) || has_subshell(*r),
        ExprView::Command(_, args) => exists|i: int| 0 <= i < args.len() && (#[trigger] args[i]) is Subshell,
    }
}

/// Whether the expression asks for a background job: a command with `&`
/// among its arguments, or a pipeline with such a command.
pub open spec fn in_background(e: ExprView) -> bool
    decreases e,
{
    match e {
        ExprView::Command(_, args) => has_background(args),
        ExprView::Pipeline(l, r) => in_background(*l) || in_background(*r),
    }
}

/// What holds of the error when an expression could not be built: a
/// pipeline names the side that could not be built, with what holds of
/// that side's error.
pub open spec fn refused(e: ExprView, env: Environment, error: Error) -> bool
    decreases e,
{
    match e {
        ExprView::Pipeline(l, r) => match error {
            Error::LeftPipe(inner) => refused(*l, env, *inner),
            Error::RightPipe(inner) => refused(*r, env, *inner),
            _ => false,
        },
        ExprView::Command(name, args) => match error {
            Error::Subshell(_) => has_subshell(e),
            Error::CommandNotFound(n) => n@ == joined_text(name, env) && (env.lookup("PATH"@) matches Some(
                search_path,
            ) && found(n@, search_path, None)),
            Error::CorruptPath => env.lookup("PATH"@) is None,
            _ => false,
        },
    }
}

impl Job {
    /// The pipeline of what building its two sides gave. The first error
    /// wins: an error of the left side is wrapped as such, whatever the
    /// right side gave; else an error of the right side is wrapped as
    /// such; else the pipeline of both is a background job where one of
    /// the sides is one.
    pub fn piped(left: Result<Job, Error>, right: Result<Job, Error>) -> (r: Result<Job, Error>)
        requires
            left matches Ok(job) ==> job.fresh(),
            right matches Ok(job) ==> job.fresh(),
        ensures
            match (left, right) {
                (Err(e), _) => r matches Err(Error::LeftPipe(inner)) && *inner == e,
                (Ok(_), Err(e)) => r matches Err(Error::RightPipe(inner)) && *inner == e,
                (Ok(l), Ok(job)) => r matches Ok(both) && both.fresh() && both.output is None && both.background
                    == (l.background || job.background) && both.configuration == Configuration::Pipeline(
                    Box::new(l),
                    Box::new(job),
                ),
            },
    {
        match left {
            Err(e) => Err(Error::LeftPipe(Box::new(e))),
            Ok(l) => match right {
                Err(e) => Err(Error::RightPipe(Box::new(e))),
                Ok(job) => {
                    let background = l.background || job.background;
                    Ok(Job::pipeline(l, job, background))
                },
            },
        }
    }

    /// The job of a command once its name has been asked of the handler
    /// and, where the handler does not know it, looked for in the file
    /// system: a name the handler knows is a builtin; any other name is
    /// the program it resolved to, or the error of looking for it.
    pub fn assemble(
        known: bool,
        resolved: Option<Result<String, Error>>,
        name: String,
        words: Vec<String>,
        options: Vec<(i32, FdOption)>,
        background: bool,
    ) -> (r: Result<Job, Error>)
        ensures
            match (known, resolved) {
                (true, _) => r matches Ok(job) && job.fresh() && job.output is None && job.background == background
                    && job.configuration == Configuration::Builtin(name, words, options),
                (false, Some(Ok(path))) => r matches Ok(job) && job.fresh() && job.output is None
                    && job.background == background && job.configuration == Configuration::External(
                    path,
                    words,
                    options,
                ),
                (false, Some(Err(e))) => r == Err::<Job, Error>(e),
                (false, None) => r matches Err(Error::CommandNotFound(n)) && n == name,
            },
    {
        if known {
            Ok(Job::builtin(name, words, options, background))
        } else {
            match resolved {
                Some(Ok(path)) => Ok(Job::external(path, words, options, background)),
                Some(Err(e)) => Err(e),
                None => Err(Error::CommandNotFound(name)),
            }
        }
    }

    /// Builds the job an expression describes.
    ///
    /// A command's words are expanded in `env`; a word that holds a
    /// character that means something to the file-name matcher becomes the
    /// paths it matches, or stays as it is where it matches none; a
    /// sub-shell is built and run at once and becomes one word, its output
    /// with whitespace collapsed; redirections are noted, a later one for a
    /// descriptor taking the place of an earlier one; `&` makes the job a
    /// background job. The name is then asked of the handler: a builtin
    /// becomes a builtin job, any other name is looked for in the file
    /// system. A pipeline builds its left side, then its right side, and
    /// puts them together as [`Job::piped`] says: the error of the left
    /// side wins; it is a background job where one of its commands is
    /// one. A sub-shell whose output cannot
    /// be captured is given up: what is alive of it is killed.
    ///
    /// In the calling process no descriptor obtained on the way is still
    /// held at return. Only a sub-shell creates a process: an expression
    /// without one is built in the calling process.
    pub fn from_expr<B: BuiltinHandler>(
        expr: &Expr,
        builtin_handler: &mut B,
        env: &Environment,
        os: &mut Os,
    ) -> (r: Run<Result<Job, Error>>)
        requires
            old(builtin_handler).ready(),
        ensures
            final(builtin_handler).ready(),
            r matches Run::Done(res) ==> {
                &&& final(os).ledger() == old(os).ledger()
                &&& match res {
                    Ok(job) => built(expr@, *env, job),
                    Err(e) => refused(expr@, *env, e),
                }
            },
            r is Child ==> has_subshell(expr@),
            !has_subshell(expr@) ==> r is Done && final(builtin_handler).held() == old(builtin_handler).held()
                && *final(os) == *old(os),
        decreases expr,
    {
        match expr {
            Expr::Pipeline(first, second) => {
                let left = match Job::from_expr(first, builtin_handler, env, os) {
                    Run::Child(image) => {
                        return Run::Child(image);
                    },
                    Run::Done(res) => res,
                };
                let right = match Job::from_expr(second, builtin_handler, env, os) {
                    Run::Child(image) => {
                        return Run::Child(image);
                    },
                    Run::Done(res) => res,
                };
                Run::Done(Job::piped(left, right))
            },
            Expr::Command(name, arguments) => {
                let ghost args = ast::arguments_view(arguments@);
                assert(expr@ == ExprView::Command(tokens::components_view(name@), args)) by {
                    assert(expr@->Command_1 =~= args);
                }
                let mut options: Vec<(i32, FdOption)> = Vec::new();
                let mut background = false;
                let mut words: Vec<String> = Vec::new();
                let mut i: usize = 0;
                let ghost mut lists: Seq<Seq<Seq<char>>> = Seq::empty();
                assert(args.take(0) =~= Seq::<ArgumentView>::empty());
                assert(options_view(options@) =~= options_of(args.take(0), *env));
                assert(text::views(words@) =~= plain_words(args.take(0), *env));
                assert(text::views(words@) =~= flat(lists));
                while i < arguments.len()
                    invariant
                        i <= arguments.len(),
                        *expr == Expr::Command(*name, *arguments),
                        args == ast::arguments_view(arguments@),
                        expr@ == ExprView::Command(tokens::components_view(name@), args),
                        builtin_handler.ready(),
                        (forall|j: int| 0 <= j < i ==> !((#[trigger] args[j]) is Subshell))
                            ==> builtin_handler.held() == old(builtin_handler).held() && *os == *old(os),
                        os.ledger() == old(os).ledger(),
                        options_view(options@) == options_of(args.take(i as int), *env),
                        background == has_background(args.take(i as int)),
                        words_are_plain(args.take(i as int), *env) ==> text::views(words@)
                            == plain_words(args.take(i as int), *env),
                        lists.len() == i,
                        flat(lists) == text::views(words@),
                        forall|j: int| 0 <= j < i ==> stands_for(args[j], *env, #[trigger] lists[j]),
                    decreases arguments.len() - i,
                {
                    let ghost seen = args.take(i as int);
                    let ghost next = args.take(i + 1);
                    let ghost words_before = text::views(words@);
                    let ghost lists_before = lists;
                    let ghost count_before = words@.len();
                    assert(next.drop_last() =~= seen);
                    assert(next.last() == arguments@[i as int]@);
                    assert(forall|j: int| 0 <= j < seen.len() ==> seen[j] == next[j]);
                    match &arguments[i] {
                        Argument::Redirect(fd, path) => {
                            let target = join_components(path.as_slice(), env);
                            set_option(&mut options, *fd, FdOption::Overwrite(target));
                        },
                        Argument::RedirectFD(fd, target) => {
                            set_option(&mut options, *fd, FdOption::Fd(*target));
                        },
                        Argument::Append(fd, path) => {
                            let target = join_components(path.as_slice(), env);
                            set_option(&mut options, *fd, FdOption::Append(target));
                        },
                        Argument::Input(fd, path) => {
                            let target = join_components(path.as_slice(), env);
                            set_option(&mut options, *fd, FdOption::Input(target));
                        },
                        Argument::Background => {
                            background = true;
                        },
                        Argument::Subshell(inner) => {
                            proof {
                                vstd::std_specs::vec::axiom_vec_index_decreases(*arguments, i as int);
                            }
                            assert(has_subshell(expr@)) by {
                                assert(args[i as int] is Subshell);
                            }
                            let built_inner = match Job::from_expr(inner, builtin_handler, env, os) {
                                Run::Child(image) => {
                                    return Run::Child(image);
                                },
                                Run::Done(res) => res,
                            };
                            match built_inner {
                                Err(e) => {
                                    assert(!words_are_plain(args, *env)) by {
                                        assert(args[i as int] is Subshell);
                                    }
                                    return Run::Done(Err(Error::Subshell(Box::new(e))));
                                },
                                Ok(mut subjob) => {
                                    let ran = match subjob.run_with_output(builtin_handler, os) {
                                        Run::Child(image) => {
                                            return Run::Child(image);
                                        },
                                        Run::Done(res) => res,
                                    };
                                    match ran {
                                        Err(e) => {
                                            assert(!words_are_plain(args, *env)) by {
                                                assert(args[i as int] is Subshell);
                                            }
                                            let _ = subjob.finalise();
                                            return Run::Done(Err(Error::Subshell(Box::new(e))));
                                        },
                                        Ok(output) => {
                                            let word = text::collapse_whitespace(output.as_str());
                                            assert(is_collapsed(word@)) by {
                                                assert(word@ == text::collapsed(output@));
                                            }
                                            let ghost had = words@;
                                            words.push(word);
                                            assert(text::views(words@) =~= text::views(had).push(word@));
                                            assert(text::views(words@).skip(had.len() as int) =~= seq![word@]);
                                        },
                                    }
                                },
                            }
                            assert(!words_are_plain(next, *env)) by {
                                assert(next[i as int] is Subshell);
                            }
                        },
                        Argument::Literal(parts) => {
                            let word = join_components(parts.as_slice(), env);
                            let ghost w = word@;
                            let mut found = literal_arguments(word);
                            let ghost added = found@;
                            let ghost had = words@;
                            words.append(&mut found);
                            proof {
                                assert(words@ =~= had + added);
                                assert(text::views(words@) =~= text::views(had) + text::views(added));
                                assert(text::views(words@).skip(had.len() as int) =~= text::views(added));
                                assert(text::views(added).len() == added.len());
                                if words_are_plain(next, *env) {
                                    assert(is_glob_free(w)) by {
                                        assert(next[i as int] is Literal);
                                    }
                                    assert(words_are_plain(seen, *env));
                                    assert(text::views(added).len() == 1);
                                    assert(text::views(added)[0] == w);
                                    assert(added.len() == 1);
                                    assert(words@ =~= had + added);
                                    assert(text::views(words@) =~= words_before.push(w));
                                }
                            }
                        },
                    }
                    proof {
                        let list = text::views(words@).skip(count_before as int);
                        assert(text::views(words@).len() == words@.len());
                        assert(words_before.len() == count_before);
                        assert(text::views(words@) =~= words_before + list);
                        lists = lists_before.push(list);
                        assert(lists.drop_last() =~= lists_before);
                        assert(flat(lists) =~= text::views(words@));
                        assert(args[i as int] == arguments@[i as int]@);
                        assert(stands_for(args[i as int], *env, list));
                        assert forall|j: int| 0 <= j < i + 1 implies stands_for(args[j], *env, #[trigger] lists[j]) by {
                            if j < i {
                                assert(lists[j] == lists_before[j]);
                            }
                        }
                    }
                    proof {
                        if background {
                            if arguments@[i as int]@ is Background {
                                assert(next[i as int] is Background);
                            } else {
                                let k = choose|k: int| 0 <= k < seen.len() && (#[trigger] seen[k]) is Background;
                                assert(next[k] is Background);
                            }
                        } else {
                            assert(!has_background(next)) by {
                                if has_background(next) {
                                    let k = choose|k: int| 0 <= k < next.len() && (#[trigger] next[k]) is Background;
                                    if k < i {
                                        assert(seen[k] is Background);
                                    }
                                }
                            }
                        }
                        if words_are_plain(next, *env) {
                            assert(words_are_plain(seen, *env));
                        }
                    }
                    i += 1;
                }
                assert(args.take(arguments.len() as int) =~= args);
                assert(words_of(args, *env, text::views(words@))) by {
                    assert(lists_of(args, *env, lists));
                }
                let binary = join_components(name.as_slice(), env);
                let known = builtin_handler.is_builtin(binary.as_str());
                let resolved = if known {
                    None
                } else {
                    Some(resolve_executable(binary.as_str(), env))
                };
                Run::Done(Job::assemble(known, resolved, binary, words, options, background))
            },
        }
    }
}

} // verus!
