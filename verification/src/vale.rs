//! The linter: where it is, how it is called and what it answers.

use crate::disk::{is_dir, is_file, Disk, NodeModel};
use crate::error::Error;
use crate::path::{join, parent, path_join, path_parent};
use crate::text::{
    contains, contains_text, copy_if, copy_texts, decimal, digits, glued, has_prefix, lowercase,
    occurs_at, strip_prefix, text_if, texts, texts_push, to_lower, trim, trimmed,
};
use crate::version::{newer_version, version_read};
use vstd::prelude::*;
use vstd::utf8::{decode_utf8, valid_utf8};

verus! {

/// The configuration that the linter reports.
#[derive(Debug)]
pub struct ValeConfig {
    /// The directories searched for styles, from the most general to the project's own.
    pub paths: Vec<String>,
    /// The project's styles directory, as older versions report it.
    pub styles_path: Option<String>,
    /// The active vocabularies, in the order in which they are listed.
    pub vocab: Option<Vec<String>>,
}

/// A rule as the linter compiles it.
#[derive(Debug)]
pub struct CompiledRule {
    pub pattern: String,
}

/// An error that the linter reports in a file.
#[derive(Debug)]
pub struct ValeError {
    pub path: String,
    pub text: String,
    pub line: u32,
    pub span: u32,
}

/// What can be done about an alert.
#[derive(Debug)]
pub struct ValeAction {
    pub name: Option<String>,
    pub params: Option<Vec<String>>,
}

/// The texts that can stand in place of what an alert is about.
#[derive(Debug)]
pub struct ValeFix {
    pub suggestions: Vec<String>,
    pub error: String,
}

/// Something that the linter found.
#[derive(Debug)]
pub struct ValeAlert {
    pub action: ValeAction,
    pub check: String,
    pub matched: String,
    pub description: String,
    pub link: String,
    pub line: usize,
    pub span: (usize, usize),
    pub severity: String,
    pub message: String,
}

/// What the machine says of itself.
#[derive(Debug)]
pub struct Host {
    /// The architecture, as release assets name it.
    pub arch: String,
    /// The linter on the search path.
    pub vale_on_path: Option<String>,
    /// The running program.
    pub current_exe: Option<String>,
}

/// The linter's installation: a copy of its own, one on the search path, or one that was asked
/// for.
#[derive(Debug)]
pub struct ValeManager {
    pub managed_exe: String,
    pub managed_bin: String,
    pub args: Vec<String>,
    pub arch: String,
    pub fallback_exe: String,
    pub custom_exe: Option<String>,
}

/// A call of a program.
#[derive(Debug)]
pub struct Invocation {
    pub exe: String,
    pub args: Vec<String>,
    /// The directory to run in; the current one where there is none.
    pub cwd: Option<String>,
}

/// What installing begins with.
#[derive(Debug)]
pub enum InstallStep {
    /// Nothing is to be installed; the message says why.
    Skip(String),
    /// Ask for the latest version.
    AskLatest,
}

/// A release to download and unpack, and what to say then.
#[derive(Debug)]
pub struct Download {
    pub url: String,
    pub zipped: bool,
    pub dir: String,
    pub message: String,
}

/// What installing comes to.
#[derive(Debug)]
pub enum InstallPlan {
    /// The message says that there is nothing to do.
    UpToDate(String),
    Install(Download),
}

/// The model of a [`ValeManager`].
pub ghost struct ManagerModel {
    pub managed_exe: Seq<char>,
    pub managed_bin: Seq<char>,
    pub args: Seq<Seq<char>>,
    pub arch: Seq<char>,
    pub fallback_exe: Seq<char>,
    pub custom_exe: Option<Seq<char>>,
}

impl View for ValeManager {
    type V = ManagerModel;

    open spec fn view(&self) -> ManagerModel {
        ManagerModel {
            managed_exe: self.managed_exe@,
            managed_bin: self.managed_bin@,
            args: texts(self.args@),
            arch: self.arch@,
            fallback_exe: self.fallback_exe@,
            custom_exe: text_if(self.custom_exe),
        }
    }
}

impl ValeConfig {
    /// The directories to search for styles, vocabularies and rules.
    pub open spec fn searched(&self) -> Seq<Seq<char>> {
        if self.paths@.len() > 0 {
            texts(self.paths@)
        } else {
            match self.styles_path {
                Some(path) => seq![path@],
                None => Seq::empty(),
            }
        }
    }

    /// The directories to search for styles, vocabularies and rules.
    pub fn styles_paths(&self) -> (r: Vec<String>)
        ensures
            texts(r@) == self.searched(),
    {
        if !self.paths.is_empty() {
            return copy_texts(&self.paths);
        }
        let mut out: Vec<String> = Vec::new();
        match &self.styles_path {
            Some(path) => {
                out.push(path.clone());
            },
            None => {},
        }
        proof {
            assert(texts(out@) =~= self.searched());
        }
        out
    }

    /// The active vocabularies, which a term can be added to.
    pub fn vocabs(&self) -> (r: Vec<String>)
        ensures
            texts(r@) == match self.vocab {
                Some(list) => texts(list@),
                None => Seq::empty(),
            },
    {
        match &self.vocab {
            Some(list) => copy_texts(list),
            None => {
                let none: Vec<String> = Vec::new();
                proof {
                    assert(texts(none@) =~= Seq::<Seq<char>>::empty());
                }
                none
            },
        }
    }
}

impl ValeError {
    /// The error as a line of text: path, line, column and what is wrong.
    pub open spec fn line_of_text(&self) -> Seq<char> {
        self.path@ + ":"@ + decimal(self.line as nat) + ":"@ + decimal(self.span as nat) + ": "@
            + self.text@
    }

    /// The error as a line of text.
    pub fn message(&self) -> (r: String)
        ensures
            r@ == self.line_of_text(),
    {
        let mut out = self.path.clone();
        out.append(":");
        out.append(digits(self.line).as_str());
        out.append(":");
        out.append(digits(self.span).as_str());
        out.append(": ");
        out.append(self.text.as_str());
        out
    }
}

/// Whether an architecture is one of Windows.
pub open spec fn is_windows(arch: Seq<char>) -> bool {
    contains(lowercase(arch), "windows"@)
}

/// Whether an architecture is one of Windows.
pub fn on_windows(arch: &str) -> (r: bool)
    ensures
        r == is_windows(arch@),
{
    contains_text(to_lower(arch).as_str(), "windows")
}

/// The file name of the linter.
pub open spec fn exe_name(arch: Seq<char>) -> Seq<char> {
    if is_windows(arch) {
        "vale"@ + ".exe"@
    } else {
        "vale"@
    }
}

/// The directory of the linter's own copy, next to the running program.
pub open spec fn bin_dir(current_exe: Option<Seq<char>>) -> Seq<char> {
    let here = match current_exe {
        Some(exe) => parent(exe)->0,
        None => Seq::empty(),
    };
    join(here, "vale_bin"@)
}

/// The program that is called: the one that was asked for and no other, else the linter's own
/// copy, else, unless `managed` rules it out, the one on the search path. Otherwise a message.
pub open spec fn program(
    cli: ManagerModel,
    disk: Map<Seq<char>, NodeModel>,
    managed: bool,
) -> Result<Seq<char>, Seq<char>> {
    match cli.custom_exe {
        Some(exe) => if is_file(disk, exe) {
            Ok(exe)
        } else {
            Err("Configured Vale binary not found: "@ + exe)
        },
        None => if disk.contains_key(cli.managed_exe) {
            Ok(cli.managed_exe)
        } else if disk.contains_key(cli.fallback_exe) && !managed {
            Ok(cli.fallback_exe)
        } else {
            Err("Vale is not installed."@)
        },
    }
}

/// The option that names the configuration, where there is one.
pub open spec fn config_option(config_path: Seq<char>) -> Seq<Seq<char>> {
    if config_path.len() > 0 {
        seq!["--config="@ + config_path]
    } else {
        Seq::empty()
    }
}

/// The option that names the filter, where there is one.
pub open spec fn filter_option(filter: Seq<char>) -> Seq<Seq<char>> {
    if filter.len() > 0 {
        seq!["--filter="@ + filter]
    } else {
        Seq::empty()
    }
}

/// The directory `cwd`, where there is one.
pub open spec fn cwd_if_there(disk: Map<Seq<char>, NodeModel>, cwd: Seq<char>) -> Option<
    Seq<char>,
> {
    if is_dir(disk, cwd) {
        Some(cwd)
    } else {
        None
    }
}

/// The directory that a file lies in, where there is one.
pub open spec fn cwd_of_file(disk: Map<Seq<char>, NodeModel>, file: Seq<char>) -> Option<
    Seq<char>,
> {
    match parent(file) {
        Some(dir) => cwd_if_there(disk, dir),
        None => None,
    }
}

/// Whether `r` is a message, with the text given.
pub open spec fn is_message<T>(r: Result<T, Error>, text: Seq<char>) -> bool {
    r matches Err(Error::Msg(said)) && said@ == text
}

/// Whether `r` is the call of `exe` with `args` in `cwd`, or the message in place of `exe`.
pub open spec fn is_call(
    r: Result<Invocation, Error>,
    exe: Result<Seq<char>, Seq<char>>,
    args: Seq<Seq<char>>,
    cwd: Option<Seq<char>>,
) -> bool {
    match exe {
        Ok(path) => r matches Ok(call) && call.exe@ == path && texts(call.args@) == args
            && text_if(call.cwd) == cwd,
        Err(text) => is_message(r, text),
    }
}

/// The file of a release, below where releases are kept.
pub open spec fn asset(version: Seq<char>, arch: Seq<char>) -> Seq<char> {
    "/v"@ + version + "/vale_"@ + version + "_"@ + arch + if is_windows(arch) {
        ".zip"@
    } else {
        ".tar.gz"@
    }
}

/// Where releases are kept.
pub const RELEASES: &'static str = "https://github.com/vale-cli/vale/releases/download";

/// What to ask for the latest release.
pub const LATEST: &'static str = "https://api.github.com/repos/vale-cli/vale/releases/latest";

impl Clone for ValeManager {
    fn clone(&self) -> (r: Self)
        ensures
            r@ == self@,
    {
        ValeManager {
            managed_exe: self.managed_exe.clone(),
            managed_bin: self.managed_bin.clone(),
            args: copy_texts(&self.args),
            arch: self.arch.clone(),
            fallback_exe: self.fallback_exe.clone(),
            custom_exe: copy_if(&self.custom_exe),
        }
    }
}

/// Appends a string to a list.
fn add_text(list: &mut Vec<String>, text: String)
    ensures
        texts(final(list)@) == texts(old(list)@).push(text@),
{
    proof {
        texts_push(list@, text);
    }
    list.push(text);
}

/// Appends the option that names the configuration, where there is one.
fn add_config(list: &mut Vec<String>, config_path: &str)
    ensures
        texts(final(list)@) == texts(old(list)@) + config_option(config_path@),
{
    proof {
        assert(texts(list@) + Seq::<Seq<char>>::empty() =~= texts(list@));
    }
    if !config_path.is_empty() {
        let option = glued("--config=", config_path);
        proof {
            assert(texts(list@) + seq![option@] =~= texts(list@).push(option@));
        }
        add_text(list, option);
    }
}

/// Appends the option that names the filter, where there is one.
fn add_filter(list: &mut Vec<String>, filter: &str)
    ensures
        texts(final(list)@) == texts(old(list)@) + filter_option(filter@),
{
    proof {
        assert(texts(list@) + Seq::<Seq<char>>::empty() =~= texts(list@));
    }
    if !filter.is_empty() {
        let option = glued("--filter=", filter);
        proof {
            assert(texts(list@) + seq![option@] =~= texts(list@).push(option@));
        }
        add_text(list, option);
    }
}

/// The arguments of a command of the linter: the configuration, then the command.
fn command_args(config_path: &str, command: &str) -> (r: Vec<String>)
    ensures
        texts(r@) == config_option(config_path@).push(command@),
{
    let mut args: Vec<String> = Vec::new();
    proof {
        assert(texts(args@) + config_option(config_path@) =~= config_option(config_path@));
    }
    add_config(&mut args, config_path);
    add_text(&mut args, command.to_owned());
    args
}

/// `String::from_utf8`: the text of bytes that are UTF-8, and nothing of others.
#[verifier::external_body]
pub(crate) fn utf8_text(bytes: Vec<u8>) -> (r: Option<String>)
    ensures
        r is Some <==> valid_utf8(bytes@),
        r matches Some(text) ==> text@ == decode_utf8(bytes@),
{
    String::from_utf8(bytes).ok()
}

/// The text that a program wrote.
pub fn decode(bytes: Vec<u8>) -> (r: Result<String, Error>)
    ensures
        valid_utf8(bytes@) ==> r is Ok && r->Ok_0@ == decode_utf8(bytes@),
        !valid_utf8(bytes@) ==> r is Err && r->Err_0 is Utf8,
{
    match utf8_text(bytes) {
        Some(text) => Ok(text),
        None => Err(Error::Utf8),
    }
}

impl ValeManager {
    /// The linter of `host`, with none asked for.
    pub fn new(host: &Host) -> (r: ValeManager)
        requires
            host.current_exe matches Some(exe) ==> parent(exe@) is Some,
        ensures
            r@ == ValeManager::for_host(host, None),
    {
        ValeManager::with_custom_exe(None, host)
    }

    /// The linter of `host`, with the program that was asked for.
    pub open spec fn for_host(host: &Host, custom_exe: Option<Seq<char>>) -> ManagerModel {
        let dir = bin_dir(text_if(host.current_exe));
        ManagerModel {
            managed_exe: join(dir, exe_name(host.arch@)),
            managed_bin: dir,
            args: seq!["--output=JSON"@],
            arch: host.arch@,
            fallback_exe: match host.vale_on_path {
                Some(exe) => exe@,
                None => Seq::empty(),
            },
            custom_exe,
        }
    }

    /// The linter of `host`, bound to the program `custom_exe` where one is given.
    ///
    /// Such a program is never replaced by another: where it is missing, that is an error.
    pub fn with_custom_exe(custom_exe: Option<String>, host: &Host) -> (r: ValeManager)
        requires
            host.current_exe matches Some(exe) ==> parent(exe@) is Some,
        ensures
            r@ == ValeManager::for_host(host, text_if(custom_exe)),
    {
        let fallback_exe = match &host.vale_on_path {
            Some(exe) => exe.clone(),
            None => String::new(),
        };
        let here = match &host.current_exe {
            Some(exe) => match path_parent(exe.as_str()) {
                Some(dir) => dir,
                None => String::new(),
            },
            None => String::new(),
        };
        let dir = path_join(here.as_str(), "vale_bin");
        let mut exe = "vale".to_owned();
        if on_windows(host.arch.as_str()) {
            exe.append(".exe");
        }
        let args: Vec<String> = vec!["--output=JSON".to_owned()];
        proof {
            assert(texts(args@) =~= seq!["--output=JSON"@]);
        }
        ValeManager {
            managed_exe: path_join(dir.as_str(), exe.as_str()),
            managed_bin: dir,
            args,
            arch: host.arch.clone(),
            fallback_exe,
            custom_exe,
        }
    }

    /// A copy of this linter, bound to the program `custom_exe`.
    pub fn pinned_to(&self, custom_exe: Option<String>) -> (r: ValeManager)
        ensures
            r@ == (ManagerModel { custom_exe: text_if(custom_exe), ..self@ }),
    {
        ValeManager {
            managed_exe: self.managed_exe.clone(),
            managed_bin: self.managed_bin.clone(),
            args: copy_texts(&self.args),
            arch: self.arch.clone(),
            fallback_exe: self.fallback_exe.clone(),
            custom_exe,
        }
    }

    /// Whether there is a linter to call.
    pub fn is_installed(&self, disk: &Disk) -> (r: bool)
        ensures
            r == match self@.custom_exe {
                Some(exe) => is_file(disk@, exe),
                None => disk@.contains_key(self@.managed_exe) || disk@.contains_key(
                    self@.fallback_exe,
                ),
            },
            r == (program(self@, disk@, false) is Ok),
    {
        match &self.custom_exe {
            Some(exe) => disk.is_file(exe.as_str()),
            None => disk.holds(self.managed_exe.as_str()) || disk.holds(
                self.fallback_exe.as_str(),
            ),
        }
    }

    /// The program that is called.
    pub fn exe_path(&self, disk: &Disk, managed: bool) -> (r: Result<String, Error>)
        ensures
            match program(self@, disk@, managed) {
                Ok(path) => r is Ok && r->Ok_0@ == path,
                Err(text) => is_message(r, text),
            },
    {
        match &self.custom_exe {
            Some(exe) => {
                if disk.is_file(exe.as_str()) {
                    return Ok(exe.clone());
                }
                return Err(
                    Error::Msg(glued("Configured Vale binary not found: ", exe.as_str())),
                );
            },
            None => {},
        }
        if disk.holds(self.managed_exe.as_str()) {
            return Ok(self.managed_exe.clone());
        } else if disk.holds(self.fallback_exe.as_str()) && !managed {
            return Ok(self.fallback_exe.clone());
        }
        Err(Error::Msg("Vale is not installed.".to_owned()))
    }

    /// The directory to run in, where there is one.
    pub fn resolve_cwd(disk: &Disk, cwd: &str) -> (r: Option<String>)
        ensures
            text_if(r) == cwd_if_there(disk@, cwd@),
    {
        if disk.is_dir(cwd) {
            Some(cwd.to_owned())
        } else {
            None
        }
    }

    /// The directory that a file lies in, where there is one.
    fn resolve_dir_of(disk: &Disk, file: &str) -> (r: Option<String>)
        ensures
            text_if(r) == cwd_of_file(disk@, file@),
    {
        match path_parent(file) {
            Some(dir) => ValeManager::resolve_cwd(disk, dir.as_str()),
            None => None,
        }
    }

    /// The call of the linter with `args` in `cwd`.
    fn call(
        &self,
        disk: &Disk,
        managed: bool,
        args: Vec<String>,
        cwd: Option<String>,
    ) -> (r: Result<Invocation, Error>)
        ensures
            is_call(r, program(self@, disk@, managed), texts(args@), text_if(cwd)),
    {
        match self.exe_path(disk, managed) {
            Ok(exe) => Ok(Invocation { exe, args, cwd }),
            Err(e) => Err(e),
        }
    }

    /// The call that lints text on its standard input as if it were the file `fp`.
    pub fn run_buffer(&self, disk: &Disk, fp: &str, config_path: &str, filter: &str) -> (r: Result<
        Invocation,
        Error,
    >)
        ensures
            is_call(
                r,
                program(self@, disk@, false),
                (self@.args + config_option(config_path@) + filter_option(filter@)).push(
                    "--path="@ + fp@,
                ),
                cwd_of_file(disk@, fp@),
            ),
    {
        let mut args = copy_texts(&self.args);
        add_config(&mut args, config_path);
        add_filter(&mut args, filter);
        add_text(&mut args, glued("--path=", fp));
        let cwd = ValeManager::resolve_dir_of(disk, fp);
        self.call(disk, false, args, cwd)
    }

    /// The call that lints the file `fp`, in the directory it lies in.
    pub fn run(&self, disk: &Disk, fp: &str, config_path: &str, filter: &str) -> (r: Result<
        Invocation,
        Error,
    >)
        requires
            parent(fp@) is Some,
        ensures
            is_call(
                r,
                program(self@, disk@, false),
                (self@.args + config_option(config_path@) + filter_option(filter@)).push(fp@),
                parent(fp@),
            ),
    {
        let mut args = copy_texts(&self.args);
        let cwd = path_parent(fp);
        add_config(&mut args, config_path);
        add_filter(&mut args, filter);
        add_text(&mut args, fp.to_owned());
        self.call(disk, false, args, cwd)
    }

    /// The call that asks the linter for its version.
    pub fn ask_version(&self, disk: &Disk, managed: bool) -> (r: Result<Invocation, Error>)
        ensures
            is_call(r, program(self@, disk@, managed), seq!["-v"@], None),
    {
        let mut args: Vec<String> = Vec::new();
        proof {
            assert(texts(args@) =~= Seq::<Seq<char>>::empty());
            assert(Seq::<Seq<char>>::empty().push("-v"@) =~= seq!["-v"@]);
        }
        add_text(&mut args, "-v".to_owned());
        self.call(disk, managed, args, None)
    }

    /// The version in what the linter says of itself.
    pub fn version(buf: &str) -> (r: String)
        requires
            has_prefix(trimmed(buf@), "vale version "@),
        ensures
            r@ == trimmed(buf@).skip("vale version "@.len() as int),
    {
        match strip_prefix(trim(buf).as_str(), "vale version ") {
            Some(version) => version,
            None => String::new(),
        }
    }

    /// The call that fetches the styles of a configuration.
    pub fn sync(&self, disk: &Disk, config_path: &str, cwd: &str) -> (r: Result<Invocation, Error>)
        ensures
            is_call(
                r,
                program(self@, disk@, false),
                config_option(config_path@).push("sync"@),
                cwd_if_there(disk@, cwd@),
            ),
    {
        let args = command_args(config_path, "sync");
        self.call(disk, false, args, ValeManager::resolve_cwd(disk, cwd))
    }

    /// The call that asks for the configuration.
    pub fn config(&self, disk: &Disk, config_path: &str, cwd: &str) -> (r: Result<
        Invocation,
        Error,
    >)
        ensures
            is_call(
                r,
                program(self@, disk@, false),
                config_option(config_path@).push("ls-config"@),
                cwd_if_there(disk@, cwd@),
            ),
    {
        let args = command_args(config_path, "ls-config");
        self.call(disk, false, args, ValeManager::resolve_cwd(disk, cwd))
    }

    /// The call that asks for the counts of the file `fp` that readability is told from.
    pub fn metrics(&self, disk: &Disk, fp: &str, config_path: &str) -> (r: Result<
        Invocation,
        Error,
    >)
        ensures
            is_call(
                r,
                program(self@, disk@, false),
                config_option(config_path@).push("ls-metrics"@).push(fp@),
                cwd_of_file(disk@, fp@),
            ),
    {
        let mut args = command_args(config_path, "ls-metrics");
        add_text(&mut args, fp.to_owned());
        self.call(disk, false, args, ValeManager::resolve_dir_of(disk, fp))
    }

    /// The call that asks what can stand in place of what the alert in the file `alert` is about.
    pub fn fix(&self, disk: &Disk, alert: &str) -> (r: Result<Invocation, Error>)
        ensures
            is_call(r, program(self@, disk@, false), seq!["fix"@, alert@], None),
    {
        let mut args: Vec<String> = Vec::new();
        proof {
            assert(texts(args@) =~= Seq::<Seq<char>>::empty());
            assert(Seq::<Seq<char>>::empty().push("fix"@).push(alert@) =~= seq!["fix"@, alert@]);
        }
        add_text(&mut args, "fix".to_owned());
        add_text(&mut args, alert.to_owned());
        self.call(disk, false, args, None)
    }

    /// The call that compiles the rule in the file `rule`.
    pub fn compile(&self, disk: &Disk, config_path: &str, cwd: &str, rule: &str) -> (r: Result<
        Invocation,
        Error,
    >)
        ensures
            is_call(
                r,
                program(self@, disk@, false),
                config_option(config_path@).push("compile"@).push(rule@),
                cwd_if_there(disk@, cwd@),
            ),
    {
        let mut args = command_args(config_path, "compile");
        add_text(&mut args, rule.to_owned());
        self.call(disk, false, args, ValeManager::resolve_cwd(disk, cwd))
    }

    /// The alerts, as JSON, in what the linter wrote; where it wrote none, its complaint.
    pub fn parse_output(stdout: Vec<u8>, stderr: Vec<u8>) -> (r: Result<String, Error>)
        ensures
            if !valid_utf8(stdout@) || !valid_utf8(stderr@) {
                r is Err && r->Err_0 is Utf8
            } else if decode_utf8(stdout@).len() > 0 {
                r is Ok && r->Ok_0@ == decode_utf8(stdout@)
            } else {
                is_message(r, decode_utf8(stderr@))
            },
    {
        let out = match decode(stdout) {
            Ok(text) => text,
            Err(e) => {
                return Err(e);
            },
        };
        let complaint = match decode(stderr) {
            Ok(text) => text,
            Err(e) => {
                return Err(e);
            },
        };
        if !out.as_str().is_empty() {
            return Ok(out);
        }
        Err(Error::Msg(complaint))
    }

    /// What installing begins with: nothing is installed next to a program that was asked for.
    pub fn install_or_update(&self) -> (r: InstallStep)
        ensures
            match self@.custom_exe {
                Some(exe) => r matches InstallStep::Skip(text) && text@ == "Using "@ + exe
                    + "; skipping install."@,
                None => r is AskLatest,
            },
    {
        match &self.custom_exe {
            Some(exe) => {
                let mut text = "Using ".to_owned();
                text.append(exe.as_str());
                text.append("; skipping install.");
                InstallStep::Skip(text)
            },
            None => InstallStep::AskLatest,
        }
    }

    /// The version that the tag of the latest release stands for.
    pub fn fetch_version(tag: &str) -> (r: String)
        requires
            has_prefix(tag@, "v"@),
        ensures
            r@ == tag@.skip("v"@.len() as int),
    {
        match strip_prefix(tag, "v") {
            Some(version) => version,
            None => String::new(),
        }
    }

    /// The release `version` to download, and what to say once it is unpacked.
    pub fn install(&self, version: &str) -> (r: Download)
        ensures
            r.url@ == RELEASES@ + asset(version@, self@.arch),
            r.zipped == is_windows(self@.arch),
            r.dir@ == self@.managed_bin,
            r.message@ == "Vale v"@ + version@ + " installed."@,
    {
        let zipped = on_windows(self.arch.as_str());
        let mut file = "/v".to_owned();
        file.append(version);
        file.append("/vale_");
        file.append(version);
        file.append("_");
        file.append(self.arch.as_str());
        if zipped {
            file.append(".zip");
        } else {
            file.append(".tar.gz");
        }
        let mut message = "Vale v".to_owned();
        message.append(version);
        message.append(" installed.");
        Download {
            url: glued(RELEASES, file.as_str()),
            zipped,
            dir: self.managed_bin.clone(),
            message,
        }
    }

    /// What installing comes to, with the latest version and the one that the linter's own copy
    /// has, if it is there.
    pub fn install_plan(&self, latest: String, current: Option<String>) -> (r: Result<
        InstallPlan,
        Error,
    >)
        ensures
            match current {
                None => r is Ok && self.installs(r->Ok_0, latest@),
                Some(now) => match (version_read(now@), version_read(latest@)) {
                    (Some(a), Some(b)) => if a != b {
                        r is Ok && self.installs(r->Ok_0, latest@)
                    } else {
                        r is Ok && (r->Ok_0 matches InstallPlan::UpToDate(text) && text@
                            == "Vale is up to date."@)
                    },
                    _ => r is Err && r->Err_0 is Version,
                },
            },
    {
        match newer_version(latest, current) {
            Ok(Some(version)) => Ok(InstallPlan::Install(self.install(version.as_str()))),
            Ok(None) => Ok(InstallPlan::UpToDate("Vale is up to date.".to_owned())),
            Err(e) => Err(e),
        }
    }

    /// Whether a plan is to install `version` where the linter's own copy lies.
    pub open spec fn installs(&self, plan: InstallPlan, version: Seq<char>) -> bool {
        &&& plan matches InstallPlan::Install(d)
        &&& d.url@ == RELEASES@ + asset(version, self@.arch)
        &&& d.zipped == is_windows(self@.arch)
        &&& d.dir@ == self@.managed_bin
        &&& d.message@ == "Vale v"@ + version + " installed."@
    }
}

/// A program that was asked for is never replaced: whatever is on disk, it is called or there is
/// an error, and nothing else is.
pub proof fn pinned_program_is_never_replaced(
    cli: ManagerModel,
    custom_exe: Seq<char>,
    disk: Map<Seq<char>, NodeModel>,
    managed: bool,
)
    requires
        cli.custom_exe == Some(custom_exe),
    ensures
        program(cli, disk, managed) matches Ok(path) ==> path == custom_exe && is_file(
            disk,
            custom_exe,
        ),
        program(cli, disk, managed) matches Err(text) ==> contains(text, custom_exe) && !is_file(
            disk,
            custom_exe,
        ),
{
    if let Err(text) = program(cli, disk, managed) {
        let front = "Configured Vale binary not found: "@;
        assert(text.subrange(front.len() as int, (front.len() + custom_exe.len()) as int)
            =~= custom_exe);
        assert(occurs_at(text, custom_exe, front.len() as int));
    }
}

/// With no program asked for, the linter's own copy is called where it is there; else, unless it
/// must be that copy, the one on the search path where it is there; else there is an error.
pub proof fn own_copy_comes_first(
    cli: ManagerModel,
    disk: Map<Seq<char>, NodeModel>,
    managed: bool,
)
    requires
        cli.custom_exe is None,
    ensures
        disk.contains_key(cli.managed_exe) ==> program(cli, disk, managed) == Ok::<
            Seq<char>,
            Seq<char>,
        >(cli.managed_exe),
        !disk.contains_key(cli.managed_exe) && disk.contains_key(cli.fallback_exe) && !managed
            ==> program(cli, disk, managed) == Ok::<Seq<char>, Seq<char>>(cli.fallback_exe),
        !disk.contains_key(cli.managed_exe) && (managed || !disk.contains_key(cli.fallback_exe))
            ==> program(cli, disk, managed) == Err::<Seq<char>, Seq<char>>(
            "Vale is not installed."@,
        ),
{
}

/// A program that was asked for is called where it is a file, and named in the error where it is
/// not.
pub proof fn pinned_program_is_called_or_named(
    cli: ManagerModel,
    disk: Map<Seq<char>, NodeModel>,
    managed: bool,
    exe: Seq<char>,
)
    requires
        cli.custom_exe == Some(exe),
    ensures
        is_file(disk, exe) ==> program(cli, disk, managed) == Ok::<Seq<char>, Seq<char>>(exe),
        !is_file(disk, exe) ==> program(cli, disk, managed) == Err::<Seq<char>, Seq<char>>(
            "Configured Vale binary not found: "@ + exe,
        ),
{
}

/// A call has the program, the arguments, one for one and in their order, and the directory; where
/// there is no program, the message stands in its place.
pub proof fn calls_have_program_arguments_and_directory(
    r: Result<Invocation, Error>,
    exe: Result<Seq<char>, Seq<char>>,
    args: Seq<Seq<char>>,
    cwd: Option<Seq<char>>,
)
    requires
        is_call(r, exe, args, cwd),
    ensures
        exe matches Ok(path) ==> {
            &&& r is Ok
            &&& r->Ok_0.exe@ == path
            &&& r->Ok_0.args@.len() == args.len()
            &&& forall|i: int| 0 <= i < args.len() ==> (#[trigger] r->Ok_0.args@[i])@ == args[i]
            &&& r->Ok_0.cwd is Some <==> cwd is Some
            &&& cwd is Some ==> r->Ok_0.cwd->0@ == cwd->0
        },
        exe matches Err(text) ==> {
            &&& r is Err
            &&& r->Err_0 is Msg
            &&& r->Err_0->Msg_0@ == text
        },
{
    if exe is Ok {
        assert forall|i: int| 0 <= i < args.len() implies (#[trigger] r->Ok_0.args@[i])@
            == args[i] by {
            assert(texts(r->Ok_0.args@)[i] == r->Ok_0.args@[i]@);
        }
    }
}

/// A message is told as a message, with its text.
pub proof fn messages_are_told_as_they_are<T>(r: Result<T, Error>, text: Seq<char>)
    requires
        is_message(r, text),
    ensures
        r is Err,
        r->Err_0 is Msg,
        r->Err_0->Msg_0@ == text,
{
}

/// A configuration or a filter that is named is one argument, with its text behind the option; one
/// that is not named is none.
pub proof fn options_carry_what_is_named(text: Seq<char>)
    ensures
        text.len() == 0 ==> config_option(text).len() == 0 && filter_option(text).len() == 0,
        text.len() > 0 ==> config_option(text) == seq!["--config="@ + text],
        text.len() > 0 ==> filter_option(text) == seq!["--filter="@ + text],
{
}

/// The linter runs in the directory that is given exactly where it is one; the directory of a file
/// is its parent.
pub proof fn linter_runs_only_in_directories(
    disk: Map<Seq<char>, NodeModel>,
    cwd: Seq<char>,
    file: Seq<char>,
)
    ensures
        is_dir(disk, cwd) ==> cwd_if_there(disk, cwd) == Some(cwd),
        !is_dir(disk, cwd) ==> cwd_if_there(disk, cwd) is None,
        parent(file) is None ==> cwd_of_file(disk, file) is None,
        parent(file) matches Some(dir) ==> {
            &&& is_dir(disk, dir) ==> cwd_of_file(disk, file) == Some(dir)
            &&& !is_dir(disk, dir) ==> cwd_of_file(disk, file) is None
        },
{
}

/// A release is named by its version and the architecture, both in full; for Windows it is a zip
/// archive, and else a compressed tar archive.
pub proof fn release_is_named_by_version_and_architecture(version: Seq<char>, arch: Seq<char>)
    ensures
        is_windows(arch) <==> contains(lowercase(arch), "windows"@),
        is_windows(arch) ==> asset(version, arch) == "/v"@ + version + "/vale_"@ + version + "_"@
            + arch + ".zip"@,
        !is_windows(arch) ==> asset(version, arch) == "/v"@ + version + "/vale_"@ + version + "_"@
            + arch + ".tar.gz"@,
        is_windows(arch) ==> exe_name(arch) == "vale"@ + ".exe"@,
        !is_windows(arch) ==> exe_name(arch) == "vale"@,
{
}

/// The linter's own copy lies in `vale_bin` next to the running program, or in the current
/// directory where the program does not know where it is.
pub proof fn own_copy_lies_next_to_the_program(host: Host, custom_exe: Option<Seq<char>>)
    requires
        host.current_exe matches Some(exe) ==> parent(exe@) is Some,
    ensures
        ({
            let cli = ValeManager::for_host(&host, custom_exe);
            let dir = match host.current_exe {
                Some(exe) => join(parent(exe@)->0, "vale_bin"@),
                None => join(Seq::empty(), "vale_bin"@),
            };
            &&& cli.managed_bin == dir
            &&& cli.managed_exe == join(dir, exe_name(host.arch@))
            &&& cli.args == seq!["--output=JSON"@]
            &&& cli.arch == host.arch@
            &&& host.vale_on_path matches Some(exe) ==> cli.fallback_exe == exe@
            &&& host.vale_on_path is None ==> cli.fallback_exe.len() == 0
            &&& cli.custom_exe == custom_exe
        }),
{
}

/// A manager is modelled with all that it knows.
pub proof fn managers_are_modelled_as_they_are(cli: ValeManager)
    ensures
        cli@.managed_exe == cli.managed_exe@,
        cli@.managed_bin == cli.managed_bin@,
        cli@.args == texts(cli.args@),
        cli@.arch == cli.arch@,
        cli@.fallback_exe == cli.fallback_exe@,
        cli@.custom_exe == text_if(cli.custom_exe),
{
}

/// All of the directories that are reported are searched, in their order; the project's own alone
/// only where none is.
pub proof fn reported_directories_are_searched(config: ValeConfig)
    ensures
        config.paths@.len() > 0 ==> config.searched() == texts(config.paths@),
        config.paths@.len() == 0 ==> match config.styles_path {
            Some(path) => config.searched() == seq![path@],
            None => config.searched().len() == 0,
        },
{
}

/// An error is told with its path, its line, its column and its text, in this order.
pub proof fn errors_are_told_in_full(error: ValeError)
    ensures
        error.line_of_text() == error.path@ + ":"@ + decimal(error.line as nat) + ":"@ + decimal(
            error.span as nat,
        ) + ": "@ + error.text@,
{
}

/// A plan to install is one to fetch the release of that version for that architecture, and to
/// unpack it where the linter's own copy lies.
pub proof fn plans_fetch_the_release(cli: ValeManager, plan: InstallPlan, version: Seq<char>)
    requires
        cli.installs(plan, version),
    ensures
        plan is Install,
        plan->Install_0.url@ == RELEASES@ + asset(version, cli.arch@),
        plan->Install_0.zipped == is_windows(cli.arch@),
        plan->Install_0.dir@ == cli.managed_bin@,
        plan->Install_0.message@ == "Vale v"@ + version + " installed."@,
{
}

} // verus!
