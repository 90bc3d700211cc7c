//! The server: what it keeps of documents and settings, and what it does on a client's word.

use crate::disk::{is_file, Disk, NodeModel};
use crate::document::{
    all_shown, find_link, is_link, is_short, is_shown_of, is_true_to, line_count, line_in_one_piece,
    lines_of, rope_lines, rope_of, rope_shown, rope_text,
};
use crate::error::Error;
use crate::json::{
    array_items, array_of, find_member, object_members, texts_among, Json, JsonModel, Member,
    MemberModel,
};
use crate::lsp::{
    says, Capabilities, Channel, DocumentLink, Hover, Level, Notice, Position, QuickFix, Range,
};
use crate::notices::notice;
use crate::path::{extension, parent, path_extension, starts_with};
use crate::settings::{
    after, is_on, linter_runs_in_the_folder_that_holds_the_file, merged, root_dir, root_dir_for,
    roots_of, setting, text_setting, unwrapped, with_roots,
};
use crate::store::{
    documents_held, documents_shown, get_document, get_param, insert_document, insert_param, no_documents,
    no_params, params_held,
};
use crate::styles::{
    every_entry_is_found_by_its_path, has_path, roots_walk, StylesPath, Walk,
};
use crate::text::{
    after_last, chars_of, contains, contains_text, copy_if, glued, last_index,
    last_index_has_none_behind, same_text, text_if, text_of, texts,
};
use crate::uri::{read_url, url_read, Uri};
use crate::vale::{
    config_option, cwd_if_there, filter_option, is_call, program, Invocation, ManagerModel,
    ValeAlert, ValeConfig, ValeFix, ValeManager,
};
use crate::workspace::{
    change_roots, changed, file_paths, file_paths_of, innermost, innermost_of, opened,
};
use dashmap::DashMap;
use ropey::Rope;
use vstd::prelude::*;
use vstd::utf8::encode_utf8;

verus! {

/// The state of the server.
#[derive(Debug)]
pub struct Backend {
    document_map: DashMap<String, Rope>,
    param_map: DashMap<String, Json>,
    cli: ValeManager,
}

/// The linter that the settings ask for: `cli`, or the program named by `valeBinaryPath`.
pub open spec fn linter(cli: ManagerModel, params: Map<Seq<char>, JsonModel>) -> ManagerModel {
    let named = text_setting(params, "valeBinaryPath"@);
    if named.len() > 0 {
        ManagerModel { custom_exe: Some(named), ..cli }
    } else {
        cli
    }
}

/// The directory to run the linter in for a document.
pub open spec fn root_dir_of(params: Map<Seq<char>, JsonModel>, uri: Uri) -> Seq<char> {
    match uri.file_path {
        Some(path) => root_dir_for(params, path@),
        None => root_dir(params),
    }
}

/// What follows the last `.` of a path; all of it where there is none.
pub open spec fn after_dot(path: Seq<char>) -> Seq<char> {
    path.skip(last_index(path, '.') + 1)
}

/// Whether a document could be a rule, which its configuration decides.
pub open spec fn may_be_rule(uri: Uri) -> bool {
    !contains(uri.path@, ".vale.ini"@) && after_dot(uri.path@) == "yml"@
}

/// Whether `path` is an entry of the styles that a configuration names.
pub open spec fn is_in_styles(
    config: Option<&ValeConfig>,
    disk: Map<Seq<char>, NodeModel>,
    path: Seq<char>,
) -> bool {
    &&& config matches Some(c)
    &&& roots_walk(disk, c.searched()) matches Walk::Done(list)
    &&& has_path(list, path)
}

/// What a document is to the server: a configuration (`ini`), a rule (`yml`) or nothing.
pub open spec fn sort_of(
    uri: Uri,
    config: Option<&ValeConfig>,
    disk: Map<Seq<char>, NodeModel>,
) -> Seq<char> {
    if contains(uri.path@, ".vale.ini"@) {
        "ini"@
    } else if may_be_rule(uri) && is_in_styles(config, disk, uri.path@) {
        "yml"@
    } else {
        Seq::empty()
    }
}

/// The line `i` of a document; empty where it is not shown.
pub open spec fn line_if_shown(seen: Seq<Option<Seq<char>>>, i: int) -> Seq<char> {
    match seen[i] {
        Some(line) => line,
        None => Seq::empty(),
    }
}

/// Whether `after` is what the documents show of their lines, where they showed `before`, once
/// `text` is the text at `address`: what is kept is shown as a new rope shows it, and the others
/// show what they did.
pub open spec fn shows_kept(
    before: Map<Seq<char>, Seq<Option<Seq<char>>>>,
    after: Map<Seq<char>, Seq<Option<Seq<char>>>>,
    address: Seq<char>,
    ext: Seq<char>,
    text: Seq<char>,
) -> bool {
    if ext.len() > 0 {
        &&& after == before.insert(address, after[address])
        &&& is_shown_of(text, after[address])
    } else {
        after == before
    }
}

/// The part of a document that a fix replaces: for a removal one character more than the alert
/// covers, which would leave two spaces otherwise.
pub open spec fn replaced(range: Range, action: Seq<char>) -> Range {
    if action == "remove"@ {
        Range {
            end: Position { character: (range.end.character + 1) as u32, ..range.end },
            ..range
        }
    } else {
        range
    }
}

/// Whether a fix puts `suggestion` in place of what an alert is about.
pub open spec fn is_fix(
    fix: QuickFix,
    action: Seq<char>,
    matched: Seq<char>,
    range: Range,
    suggestion: Seq<char>,
) -> bool {
    &&& fix.action@ == action
    &&& fix.matched@ == matched
    &&& fix.range == replaced(range, action)
    &&& fix.new_text@ == suggestion
}

/// What the server offers to a client.
pub open spec fn is_offer(offer: Capabilities) -> bool {
    &&& offer.open_close
    &&& offer.full_text_on_change
    &&& offer.text_on_save
    &&& offer.hover
    &&& texts(offer.commands@) == seq!["cli.sync"@, "cli.compile"@]
    &&& offer.links
    &&& !offer.resolves_links
    &&& offer.completions
    &&& !offer.resolves_completions
    &&& offer.quick_fixes
    &&& offer.code_lenses
    &&& offer.resolves_code_lenses
    &&& offer.workspace_folders
    &&& offer.folder_changes
}

/// The documents once `text` is the text at `address`: only configurations and rules are kept.
pub open spec fn kept(
    documents: Map<Seq<char>, Seq<char>>,
    address: Seq<char>,
    ext: Seq<char>,
    text: Seq<char>,
) -> Map<Seq<char>, Seq<char>> {
    if ext.len() > 0 {
        documents.insert(address, text)
    } else {
        documents
    }
}

/// Whether `links` is the one link found, with its target; empty where none was found.
pub open spec fn is_link_list(
    links: Seq<DocumentLink>,
    found: Option<Range>,
    target: Seq<char>,
) -> bool {
    match found {
        Some(range) => links.len() == 1 && links[0].range == range && links[0].target@ == target,
        None => links.len() == 0,
    }
}

/// What a change of a document asks for.
#[derive(Debug)]
pub enum ChangeStep {
    /// Run the linter.
    Lint(Result<Invocation, Error>),
    /// There is nothing to run; say so.
    Tell(Notice),
}

/// The links of a document.
#[derive(Debug)]
pub enum Links {
    /// None are to be told.
    Nothing,
    /// The document names an address that is none; say so.
    Invalid(Notice),
    Found(Vec<DocumentLink>),
}

/// What completing a line of a document takes.
#[derive(Debug)]
pub enum CompletionStep {
    Nothing,
    /// Complete a line of a configuration, with the directories of its styles.
    Ini(String, Vec<String>),
    /// Complete a line of the rule in a file.
    Rule(String, String),
}

/// A command that the client can give.
#[derive(Clone, Copy, Debug, PartialEq, Eq, Structural)]
pub enum ServerCommand {
    Sync,
    Compile,
    Unknown,
}

/// What compiling a rule begins with.
#[derive(Debug)]
pub enum CompileStep {
    /// There is nothing to compile; say so.
    Refuse(Notice),
    /// The address of the rule.
    Read(String),
}

/// What compiling the rule in a file takes.
#[derive(Debug)]
pub enum CompileCall {
    /// The file is no rule; say so.
    Refuse(Notice),
    Run(Result<Invocation, Error>),
}

/// The alerts of all files, in the order of the files.
pub fn all_alerts(files: Vec<Vec<ValeAlert>>) -> (r: Vec<ValeAlert>)
    ensures
        r@ == files@.map_values(|alerts: Vec<ValeAlert>| alerts@).flatten(),
{
    let ghost all = files@.map_values(|alerts: Vec<ValeAlert>| alerts@);
    let mut left = files;
    let mut out: Vec<ValeAlert> = Vec::new();
    proof {
        assert(all.skip(all.len() as int) =~= Seq::<Seq<ValeAlert>>::empty());
        assert(all.take(all.len() as int) =~= all);
        assert(out@ =~= all.skip(all.len() as int).flatten());
    }
    while left.len() > 0
        invariant
            left@.len() <= all.len(),
            left@.map_values(|alerts: Vec<ValeAlert>| alerts@) == all.take(left@.len() as int),
            out@ == all.skip(left@.len() as int).flatten(),
        decreases left@.len(),
    {
        let ghost before = left@;
        match left.pop() {
            Some(mut alerts) => {
                let ghost last = alerts@;
                proof {
                    let n = before.len() as int;
                    let models = before.map_values(|alerts: Vec<ValeAlert>| alerts@);
                    assert(models[n - 1] == last);
                    assert(all.take(n)[n - 1] == all[n - 1]);
                    assert(all.skip(n - 1).first() == last);
                    assert(all.skip(n - 1).drop_first() =~= all.skip(n));
                    assert(left@.map_values(|alerts: Vec<ValeAlert>| alerts@) =~= all.take(n - 1))
                        by {
                        assert forall|j: int| 0 <= j < n - 1 implies all.take(n)[j] == models[j] by {}
                    }
                }
                alerts.append(&mut out);
                out = alerts;
            },
            None => {},
        }
    }
    proof {
        assert(all.skip(0) =~= all);
    }
    out
}

/// The first alert that the client asks about, as the client wrote it down.
pub fn first_alert(data: Vec<Option<String>>) -> (r: Option<String>)
    ensures
        text_if(r) == if data@.len() > 0 {
            text_if(data@[0])
        } else {
            None
        },
{
    if data.len() == 0 {
        return None;
    }
    copy_if(&data[0])
}

impl Backend {
    /// The texts of the documents that the server keeps, by address.
    pub closed spec fn documents(&self) -> Map<Seq<char>, Seq<char>> {
        documents_held(self.document_map)
    }

    /// What those documents show of their lines, by address: of each line all of it, or nothing
    /// where the line is kept in pieces.
    pub closed spec fn shown(&self) -> Map<Seq<char>, Seq<Option<Seq<char>>>> {
        documents_shown(self.document_map)
    }

    /// Whether each document is shown as a new rope shows its text.
    pub open spec fn is_faithful(&self) -> bool {
        forall|address: Seq<char>| #[trigger]
            self.documents().contains_key(address) ==> is_shown_of(
                self.documents()[address],
                self.shown()[address],
            )
    }

    /// The settings.
    pub closed spec fn params(&self) -> Map<Seq<char>, JsonModel> {
        params_held(self.param_map)
    }

    /// The linter, before the settings have their say.
    pub closed spec fn manager(&self) -> ManagerModel {
        self.cli@
    }

    /// A server without documents and settings.
    pub fn new(cli: ValeManager) -> (r: Backend)
        ensures
            r.documents() == Map::<Seq<char>, Seq<char>>::empty(),
            r.shown() == Map::<Seq<char>, Seq<Option<Seq<char>>>>::empty(),
            r.is_faithful(),
            r.params() == Map::<Seq<char>, JsonModel>::empty(),
            r.manager() == cli@,
    {
        let r = Backend { document_map: no_documents(), param_map: no_params(), cli };
        proof {
            assert(r.documents() =~= Map::<Seq<char>, Seq<char>>::empty());
            assert(r.shown() =~= Map::<Seq<char>, Seq<Option<Seq<char>>>>::empty());
            assert(r.params() =~= Map::<Seq<char>, JsonModel>::empty());
        }
        r
    }

    /// The setting `key`, where there is one.
    pub fn get_setting(&self, key: &str) -> (r: Option<Json>)
        ensures
            r is Some <==> setting(self.params(), key@) is Some,
            r matches Some(value) ==> Some(value@) == setting(self.params(), key@),
    {
        get_param(&self.param_map, key)
    }

    /// The text of the setting `key`; empty where there is none or it is no text.
    pub fn get_string(&self, key: &str) -> (r: String)
        ensures
            r@ == text_setting(self.params(), key@),
    {
        match self.get_setting(key) {
            Some(Json::Text(text)) => text,
            _ => String::new(),
        }
    }

    /// Whether the setting `key` is `true`.
    fn is_set(&self, key: &str) -> (r: bool)
        ensures
            r == is_on(self.params(), key@),
    {
        match self.get_setting(key) {
            Some(Json::Bool(b)) => b,
            _ => false,
        }
    }

    /// Whether the linter is to be installed.
    pub fn should_install(&self) -> (r: bool)
        ensures
            r == is_on(self.params(), "installVale"@),
    {
        self.is_set("installVale")
    }

    /// Whether styles are to be fetched on startup.
    pub fn should_sync(&self) -> (r: bool)
        ensures
            r == is_on(self.params(), "syncOnStartup"@),
    {
        self.is_set("syncOnStartup")
    }

    /// The linter to call, which the client may name at any time.
    pub fn vale(&self) -> (r: ValeManager)
        ensures
            r@ == linter(self.manager(), self.params()),
    {
        let configured = self.get_string("valeBinaryPath");
        if configured.as_str().is_empty() {
            return self.cli.clone();
        }
        self.cli.pinned_to(Some(configured))
    }

    /// The configuration that the client names.
    pub fn config_path(&self) -> (r: String)
        ensures
            r@ == text_setting(self.params(), "configPath"@),
    {
        self.get_string("configPath")
    }

    /// The filter that the client names.
    pub fn config_filter(&self) -> (r: String)
        ensures
            r@ == text_setting(self.params(), "filter"@),
    {
        self.get_string("filter")
    }

    /// The directories that the client works in.
    pub fn roots(&self) -> (r: Vec<String>)
        ensures
            texts(r@) == roots_of(self.params()),
    {
        match self.get_setting("roots") {
            Some(Json::Array(items)) => {
                proof {
                    array_items(items);
                }
                texts_among(&items)
            },
            _ => {
                let none: Vec<String> = Vec::new();
                proof {
                    assert(texts(none@) =~= Seq::<Seq<char>>::empty());
                }
                none
            },
        }
    }

    /// Sets the directories that the client works in.
    pub fn set_roots(&mut self, roots: Vec<String>)
        ensures
            final(self).params() == with_roots(old(self).params(), texts(roots@)),
            final(self).documents() == old(self).documents(),
            final(self).shown() == old(self).shown(),
            old(self).is_faithful() ==> final(self).is_faithful(),
            final(self).manager() == old(self).manager(),
    {
        insert_param(&mut self.param_map, "roots".to_owned(), array_of(roots));
        proof {
            assert(self.documents() == old(self).documents());
            assert(self.shown() == old(self).shown());
        }
    }

    /// The directory to run the linter in where there is no document.
    pub fn root_path(&self) -> (r: String)
        ensures
            r@ == root_dir(self.params()),
    {
        let explicit = self.get_string("root");
        if !explicit.as_str().is_empty() {
            return explicit;
        }
        let roots = self.roots();
        if roots.len() > 0 {
            proof {
                assert(roots_of(self.params())[0] == roots@[0]@);
            }
            roots[0].clone()
        } else {
            String::new()
        }
    }

    /// The directory to run the linter in for a document.
    ///
    /// Projects in one workspace may have configurations of their own, so this is the folder that
    /// the document lies in, and the innermost one where folders are nested.
    pub fn root_for(&self, uri: &Uri) -> (r: String)
        ensures
            r@ == root_dir_of(self.params(), *uri),
    {
        match &uri.file_path {
            Some(path) => self.root_for_path(path.as_str()),
            None => self.root_path(),
        }
    }

    /// The directory to run the linter in for a file.
    pub fn root_for_path(&self, path: &str) -> (r: String)
        ensures
            r@ == root_dir_for(self.params(), path@),
            text_setting(self.params(), "root"@).len() == 0 && (exists|i: int|
                0 <= i < roots_of(self.params()).len() && starts_with(
                    path@,
                    #[trigger] roots_of(self.params())[i],
                )) ==> starts_with(path@, r@) && roots_of(self.params()).contains(r@),
    {
        proof {
            if text_setting(self.params(), "root"@).len() == 0 {
                linter_runs_in_the_folder_that_holds_the_file(self.params(), path@);
            }
        }
        let explicit = self.get_string("root");
        if !explicit.as_str().is_empty() {
            return explicit;
        }
        match Backend::best_root(&self.roots(), path) {
            Some(root) => root,
            None => self.root_path(),
        }
    }

    /// The innermost of `roots` that holds `path`.
    pub fn best_root(roots: &Vec<String>, path: &str) -> (r: Option<String>)
        ensures
            text_if(r) == innermost(texts(roots@), path@),
    {
        innermost_of(roots, path)
    }

    /// The directories that a client opens: its folders, else its root, else `cwd`.
    ///
    /// Not every client names a root, and with none the linter could not be run at all.
    pub fn workspace_roots(folders: &Vec<Uri>, root: &Option<Uri>, cwd: Option<String>) -> (r: Vec<
        String,
    >)
        ensures
            texts(r@) == opened(file_paths(folders@), match root {
                Some(uri) => text_if(uri.file_path),
                None => None,
            }, text_if(cwd)),
    {
        let from_folders = file_paths_of(folders);
        if from_folders.len() > 0 {
            return from_folders;
        }
        let from_root = match root {
            Some(uri) => copy_if(&uri.file_path),
            None => None,
        };
        let mut out: Vec<String> = Vec::new();
        match from_root {
            Some(path) => {
                out.push(path);
            },
            None => match cwd {
                Some(path) => {
                    out.push(path);
                },
                None => {},
            },
        }
        proof {
            assert(texts(out@) =~= opened(file_paths(folders@), match root {
                Some(uri) => text_if(uri.file_path),
                None => None,
            }, text_if(cwd)));
        }
        out
    }

    /// The settings in what a client pushed, which some clients put below a name.
    pub fn settings_object(settings: Json) -> (r: Option<Json>)
        ensures
            r is Some <==> unwrapped(settings@) is Some,
            r matches Some(object) ==> Some(object@) == unwrapped(settings@),
    {
        match &settings {
            Json::Object(members) => {
                proof {
                    object_members(*members);
                }
                match find_member(members, "vale") {
                    Some(scoped) => match scoped {
                        Json::Object(inner) => {
                            proof {
                                object_members(*inner);
                            }
                            return Some(scoped.clone());
                        },
                        _ => {},
                    },
                    None => {},
                }
            },
            _ => {
                return None;
            },
        }
        Some(settings)
    }

    /// Puts in the settings that a client sent.
    pub fn parse_params(&mut self, params: Option<Json>)
        ensures
            final(self).params() == after(old(self).params(), match params {
                Some(sent) => Some(sent@),
                None => None,
            }),
            final(self).documents() == old(self).documents(),
            final(self).shown() == old(self).shown(),
            old(self).is_faithful() ==> final(self).is_faithful(),
            final(self).manager() == old(self).manager(),
    {
        match &params {
            Some(Json::Object(members)) => {
                proof {
                    object_members(*members);
                }
                self.merge(members);
            },
            _ => {},
        }
    }

    /// Puts in the settings of an object.
    fn merge(&mut self, members: &Vec<Member>)
        ensures
            final(self).params() == merged(
                old(self).params(),
                members@.map_values(|m: Member| m@),
            ),
            final(self).documents() == old(self).documents(),
            final(self).shown() == old(self).shown(),
            old(self).is_faithful() ==> final(self).is_faithful(),
            final(self).manager() == old(self).manager(),
    {
        let ghost all = members@.map_values(|m: Member| m@);
        let mut i: usize = 0;
        proof {
            assert(all.take(0) =~= Seq::<MemberModel>::empty());
        }
        while i < members.len()
            invariant
                i <= members@.len(),
                all == members@.map_values(|m: Member| m@),
                self.params() == merged(old(self).params(), all.take(i as int)),
                self.documents() == old(self).documents(),
                self.shown() == old(self).shown(),
                self.manager() == old(self).manager(),
            decreases members@.len() - i,
        {
            proof {
                assert(all.take(i + 1).drop_last() =~= all.take(i as int));
                assert(all.take(i + 1).last() == members@[i as int]@);
            }
            insert_param(&mut self.param_map, members[i].key.clone(), members[i].value.clone());
            i = i + 1;
        }
        proof {
            assert(all.take(all.len() as int) =~= all);
        }
    }
}

impl Backend {
    /// What the server offers, once the client has said where it works and what its settings are;
    /// and whether the linter is to be installed.
    pub fn initialize(
        &mut self,
        folders: &Vec<Uri>,
        root: &Option<Uri>,
        cwd: Option<String>,
        options: Option<Json>,
    ) -> (r: (Capabilities, bool))
        ensures
            is_offer(r.0),
            r.1 == is_on(final(self).params(), "installVale"@),
            final(self).params() == after(
                with_roots(
                    old(self).params(),
                    opened(file_paths(folders@), match root {
                        Some(uri) => text_if(uri.file_path),
                        None => None,
                    }, text_if(cwd)),
                ),
                match options {
                    Some(sent) => Some(sent@),
                    None => None,
                },
            ),
            final(self).documents() == old(self).documents(),
            final(self).shown() == old(self).shown(),
            old(self).is_faithful() ==> final(self).is_faithful(),
            final(self).manager() == old(self).manager(),
    {
        self.set_roots(Backend::workspace_roots(folders, root, cwd));
        let install = self.init(options);
        let commands: Vec<String> = vec!["cli.sync".to_owned(), "cli.compile".to_owned()];
        proof {
            assert(texts(commands@) =~= seq!["cli.sync"@, "cli.compile"@]);
        }
        let offer = Capabilities {
            open_close: true,
            full_text_on_change: true,
            text_on_save: true,
            hover: true,
            commands,
            links: true,
            resolves_links: false,
            completions: true,
            resolves_completions: false,
            quick_fixes: true,
            code_lenses: true,
            resolves_code_lenses: true,
            workspace_folders: true,
            folder_changes: true,
        };
        (offer, install)
    }

    /// Puts in the settings that come first, and tells whether the linter is to be installed.
    pub fn init(&mut self, params: Option<Json>) -> (r: bool)
        ensures
            r == is_on(final(self).params(), "installVale"@),
            final(self).params() == after(old(self).params(), match params {
                Some(sent) => Some(sent@),
                None => None,
            }),
            final(self).documents() == old(self).documents(),
            final(self).shown() == old(self).shown(),
            old(self).is_faithful() ==> final(self).is_faithful(),
            final(self).manager() == old(self).manager(),
    {
        self.parse_params(params);
        self.should_install()
    }

    /// Whether styles are to be fetched now that the client is ready, and what is said after
    /// that.
    pub fn initialized(&self) -> (r: (bool, Notice))
        ensures
            r.0 == is_on(self.params(), "syncOnStartup"@),
            says(r.1, Channel::Log, Level::Info, "initialized!"@),
    {
        (self.should_sync(), notice(Channel::Log, Level::Info, "initialized!"))
    }

    /// Puts in the settings that a client pushed.
    pub fn did_change_configuration(&mut self, settings: Json) -> (r: Notice)
        ensures
            says(r, Channel::Log, Level::Info, "configuration changed!"@),
            final(self).params() == after(old(self).params(), unwrapped(settings@)),
            final(self).documents() == old(self).documents(),
            final(self).shown() == old(self).shown(),
            old(self).is_faithful() ==> final(self).is_faithful(),
            final(self).manager() == old(self).manager(),
    {
        self.parse_params(Backend::settings_object(settings));
        notice(Channel::Log, Level::Info, "configuration changed!")
    }

    /// Takes folders out of the workspace and puts others in.
    pub fn did_change_workspace_folders(&mut self, removed: &Vec<Uri>, added: &Vec<Uri>) -> (r:
        Notice)
        ensures
            says(r, Channel::Log, Level::Info, "workspace folders changed!"@),
            final(self).params() == with_roots(
                old(self).params(),
                changed(roots_of(old(self).params()), file_paths(removed@), file_paths(added@)),
            ),
            final(self).documents() == old(self).documents(),
            final(self).shown() == old(self).shown(),
            old(self).is_faithful() ==> final(self).is_faithful(),
            final(self).manager() == old(self).manager(),
    {
        let roots = change_roots(&self.roots(), &file_paths_of(removed), &file_paths_of(added));
        self.set_roots(roots);
        notice(Channel::Log, Level::Info, "workspace folders changed!")
    }

    /// A copy of the document at an address, where the server keeps it.
    pub fn document(&self, uri: &Uri) -> (r: Option<Rope>)
        ensures
            r is Some <==> self.documents().contains_key(uri.text@),
            r is Some <==> self.shown().contains_key(uri.text@),
            r matches Some(rope) ==> rope_text(rope) == self.documents()[uri.text@],
            r matches Some(rope) ==> rope_shown(rope) == self.shown()[uri.text@],
    {
        get_document(&self.document_map, uri.text.as_str())
    }

    /// Whether it takes the configuration to tell what a document is.
    pub fn needs_config(uri: &Uri) -> (r: bool)
        ensures
            r == may_be_rule(*uri),
    {
        let chars = chars_of(uri.path.as_str());
        let at: usize = after_last(&chars, chars.len(), '.');
        let ext = text_of(&chars, at, chars.len());
        proof {
            assert(chars@.take(chars@.len() as int) =~= uri.path@);
            assert(ext@ =~= after_dot(uri.path@));
        }
        !contains_text(uri.path.as_str(), ".vale.ini") && same_text(ext.as_str(), "yml")
    }

    /// The call that asks for the configuration of a document.
    pub fn config_call(&self, disk: &Disk, uri: &Uri) -> (r: Result<Invocation, Error>)
        ensures
            is_call(
                r,
                program(linter(self.manager(), self.params()), disk@, false),
                config_option(text_setting(self.params(), "configPath"@)).push("ls-config"@),
                cwd_if_there(disk@, root_dir_of(self.params(), *uri)),
            ),
    {
        self.vale().config(disk, self.config_path().as_str(), self.root_for(uri).as_str())
    }

    /// What a document is to the server, with its configuration where it could be had.
    pub fn get_ext(uri: &Uri, config: Option<&ValeConfig>, disk: &Disk) -> (r: String)
        requires
            may_be_rule(*uri) && config is Some ==> !(roots_walk(
                disk@,
                config->0.searched(),
            ) is Unsized),
        ensures
            r@ == sort_of(*uri, config, disk@),
    {
        if contains_text(uri.path.as_str(), ".vale.ini") {
            return "ini".to_owned();
        }
        if Backend::needs_config(uri) {
            match config {
                Some(config) => {
                    let styles = StylesPath::new(config.styles_paths());
                    match styles.has(disk, uri.path.as_str()) {
                        Ok(true) => {
                            return "yml".to_owned();
                        },
                        _ => {},
                    }
                },
                None => {},
            }
        }
        String::new()
    }

    /// Keeps the text of a document that is a configuration or a rule.
    pub fn update(&mut self, uri: &Uri, ext: &str, text: &str)
        ensures
            final(self).documents() == kept(old(self).documents(), uri.text@, ext@, text@),
            shows_kept(old(self).shown(), final(self).shown(), uri.text@, ext@, text@),
            old(self).is_faithful() ==> final(self).is_faithful(),
            final(self).params() == old(self).params(),
            final(self).manager() == old(self).manager(),
    {
        if !ext.is_empty() {
            insert_document(&mut self.document_map, uri.text.clone(), rope_of(text));
        }
        proof {
            if old(self).is_faithful() {
                assert forall|address: Seq<char>| #[trigger]
                    self.documents().contains_key(address) implies is_shown_of(
                    self.documents()[address],
                    self.shown()[address],
                ) by {
                    assert(address == uri.text@ || old(self).documents().contains_key(address));
                }
            }
        }
    }

    /// Keeps the text of a document that was opened or saved, and says what to do then: lint it,
    /// or tell why not. A program that was asked for and is missing is named.
    pub fn on_change(&mut self, disk: &Disk, uri: &Uri, ext: &str, text: &str) -> (r: ChangeStep)
        requires
            program(linter(old(self).manager(), old(self).params()), disk@, false) is Ok ==> (
            uri.file_path matches Some(path) ==> parent(path@) is Some),
        ensures
            final(self).documents() == kept(old(self).documents(), uri.text@, ext@, text@),
            shows_kept(old(self).shown(), final(self).shown(), uri.text@, ext@, text@),
            old(self).is_faithful() ==> final(self).is_faithful(),
            final(self).params() == old(self).params(),
            final(self).manager() == old(self).manager(),
            ({
                let params = old(self).params();
                let cli = linter(old(self).manager(), params);
                if program(cli, disk@, false) is Ok {
                    match uri.file_path {
                        Some(path) => r matches ChangeStep::Lint(call) && is_call(
                            call,
                            program(cli, disk@, false),
                            (cli.args + config_option(text_setting(params, "configPath"@))
                                + filter_option(text_setting(params, "filter"@))).push(path@),
                            parent(path@),
                        ),
                        None => r matches ChangeStep::Tell(said) && says(
                            said,
                            Channel::Log,
                            Level::Info,
                            "No file path found. Is the file saved?"@,
                        ),
                    }
                } else {
                    r matches ChangeStep::Tell(said) && says(
                        said,
                        Channel::Log,
                        Level::Warning,
                        match cli.custom_exe {
                            Some(exe) => "Configured Vale binary not found: "@ + exe,
                            None => "Vale CLI not installed!"@,
                        },
                    )
                }
            }),
    {
        let vale = self.vale();
        let has_cli = vale.is_installed(disk);
        self.update(uri, ext, text);
        if !has_cli {
            let message = match &vale.custom_exe {
                Some(exe) => glued("Configured Vale binary not found: ", exe.as_str()),
                None => "Vale CLI not installed!".to_owned(),
            };
            return ChangeStep::Tell(notice(Channel::Log, Level::Warning, message.as_str()));
        }
        match &uri.file_path {
            Some(path) => ChangeStep::Lint(
                vale.run(
                    disk,
                    path.as_str(),
                    self.config_path().as_str(),
                    self.config_filter().as_str(),
                ),
            ),
            None => ChangeStep::Tell(
                notice(Channel::Log, Level::Info, "No file path found. Is the file saved?"),
            ),
        }
    }

    /// Whether it takes the rule in a document to tell its links.
    pub fn wants_rule(&self, uri: &Uri, ext: &str) -> (r: bool)
        ensures
            r == (ext@ == "yml"@ && self.documents().contains_key(uri.text@)),
    {
        same_text(ext, "yml") && self.document(uri).is_some()
    }

    /// The links of a document: of a rule, the address that it names as its source, where it
    /// stands first. Lines that the rope keeps in pieces are passed over.
    pub fn document_link(&self, uri: &Uri, ext: &str, source: Option<&str>) -> (r: Links)
        ensures
            if ext@ == "yml"@ && self.documents().contains_key(uri.text@) && source is Some {
                let link = source->0@;
                match url_read(link) {
                    None => r matches Links::Invalid(said) && says(
                        said,
                        Channel::Show,
                        Level::Error,
                        "link has Invalid URL"@,
                    ),
                    Some(target) => r matches Links::Found(links) && exists|found: Option<Range>|
                        {
                            &&& is_true_to(self.documents()[uri.text@], self.shown()[uri.text@])
                            &&& #[trigger] is_link(self.shown()[uri.text@], link, found)
                            &&& is_link_list(links@, found, target)
                            &&& self.is_faithful() && is_short(self.documents()[uri.text@])
                                ==> is_link(all_shown(self.documents()[uri.text@]), link, found)
                        },
                }
            } else {
                r is Nothing
            },
    {
        if !same_text(ext, "yml") {
            return Links::Nothing;
        }
        match (self.document(uri), source) {
            (Some(rope), Some(link)) => match read_url(link) {
                Some(target) => {
                    let lines = lines_of(&rope);
                    let found = find_link(&lines, link);
                    let mut links: Vec<DocumentLink> = Vec::new();
                    match found {
                        Some(range) => {
                            links.push(DocumentLink { range, target });
                        },
                        None => {},
                    }
                    proof {
                        assert(is_link(self.shown()[uri.text@], link@, found));
                    }
                    Links::Found(links)
                },
                None => Links::Invalid(
                    notice(Channel::Show, Level::Error, "link has Invalid URL"),
                ),
            },
            _ => Links::Nothing,
        }
    }

    /// What is known of the part `span` of a document: of a configuration what its key means, of a
    /// rule in a file what the rule says of it.
    pub fn hover(
        &self,
        uri: &Uri,
        ext: &str,
        span: Option<Range>,
        of_key: Option<String>,
        of_rule: Option<String>,
    ) -> (r: Option<Hover>)
        ensures
            ({
                let known = if ext@ == "ini"@ && of_key is Some {
                    text_if(of_key)
                } else if ext@ == "yml"@ && uri.file_path is Some {
                    text_if(of_rule)
                } else {
                    None
                };
                if self.documents().contains_key(uri.text@) && span is Some && known is Some {
                    r matches Some(hover) && hover.value@ == known->0 && hover.range == span->0
                } else {
                    r is None
                }
            }),
    {
        if self.document(uri).is_none() {
            return None;
        }
        let range = match span {
            Some(range) => range,
            None => {
                return None;
            },
        };
        if same_text(ext, "ini") && of_key.is_some() {
            return match of_key {
                Some(value) => Some(Hover { value, range }),
                None => None,
            };
        }
        if same_text(ext, "yml") && uri.file_path.is_some() {
            return match of_rule {
                Some(value) => Some(Hover { value, range }),
                None => None,
            };
        }
        None
    }

    /// Whether the server keeps a document and it has the line `line`.
    pub fn has_line(&self, uri: &Uri, line: u32) -> (r: bool)
        ensures
            r == (self.documents().contains_key(uri.text@) && line < rope_lines(
                self.documents()[uri.text@],
            ).len()),
    {
        match self.document(uri) {
            Some(rope) => {
                let count: usize = line_count(&rope);
                (line as u64) < count as u64
            },
            None => false,
        }
    }

    /// What completing a line of a document takes, with its configuration where it could be had.
    /// A line that the rope keeps in pieces counts as empty.
    pub fn completion(&self, uri: &Uri, ext: &str, line: u32, config: Option<&ValeConfig>) -> (r:
        CompletionStep)
        requires
            self.documents().contains_key(uri.text@) ==> line < rope_lines(
                self.documents()[uri.text@],
            ).len(),
            ext@ == "yml"@ && config is Some && self.documents().contains_key(uri.text@)
                ==> uri.file_path is Some,
        ensures
            if !self.documents().contains_key(uri.text@) || config is None {
                r is Nothing
            } else if ext@ == "ini"@ {
                r matches CompletionStep::Ini(text, styles) && {
                    &&& text@ == line_if_shown(self.shown()[uri.text@], line as int)
                    &&& self.shown()[uri.text@][line as int] is Some ==> text@ == rope_lines(
                        self.documents()[uri.text@],
                    )[line as int]
                    &&& self.is_faithful() && is_short(self.documents()[uri.text@]) ==> text@
                        == rope_lines(self.documents()[uri.text@])[line as int]
                    &&& texts(styles@) == config->0.searched()
                }
            } else if ext@ == "yml"@ {
                r matches CompletionStep::Rule(text, path) && {
                    &&& text@ == line_if_shown(self.shown()[uri.text@], line as int)
                    &&& self.shown()[uri.text@][line as int] is Some ==> text@ == rope_lines(
                        self.documents()[uri.text@],
                    )[line as int]
                    &&& self.is_faithful() && is_short(self.documents()[uri.text@]) ==> text@
                        == rope_lines(self.documents()[uri.text@])[line as int]
                    &&& Some(path@) == text_if(uri.file_path)
                }
            } else {
                r is Nothing
            },
    {
        let rope = match self.document(uri) {
            Some(rope) => rope,
            None => {
                return CompletionStep::Nothing;
            },
        };
        let text = match line_in_one_piece(&rope, line as usize) {
            Some(text) => text,
            None => String::new(),
        };
        let config = match config {
            Some(config) => config,
            None => {
                return CompletionStep::Nothing;
            },
        };
        if same_text(ext, "ini") {
            return CompletionStep::Ini(text, config.styles_paths());
        }
        if same_text(ext, "yml") {
            match &uri.file_path {
                Some(path) => {
                    return CompletionStep::Rule(text, path.clone());
                },
                None => {},
            }
        }
        CompletionStep::Nothing
    }

    /// The fixes of an alert, one for each text that can stand in place of what it is about, which
    /// is the part `range` of the document.
    pub fn code_action(alert: &ValeAlert, fixed: &ValeFix, range: Range) -> (r: Option<
        Vec<QuickFix>,
    >)
        requires
            alert.action.name matches Some(name) ==> (name@ == "remove"@ ==> range.end.character
                < u32::MAX),
        ensures
            match alert.action.name {
                Some(name) => r matches Some(fixes) && {
                    &&& fixes@.len() == fixed.suggestions@.len()
                    &&& forall|i: int|
                        0 <= i < fixes@.len() ==> is_fix(
                            #[trigger] fixes@[i],
                            name@,
                            alert.matched@,
                            range,
                            fixed.suggestions@[i]@,
                        )
                    &&& forall|i: int|
                        0 <= i < fixes@.len() ==> (#[trigger] fixes@[i]).new_text@
                            == fixed.suggestions@[i]@ && fixes@[i].range.start == range.start
                            && fixes@[i].range.end.line == range.end.line
                            && fixes@[i].range.end.character == range.end.character + if name@
                            == "remove"@ {
                            1int
                        } else {
                            0int
                        }
                },
                None => r is None,
            },
    {
        let name = match &alert.action.name {
            Some(name) => name,
            None => {
                return None;
            },
        };
        let mut range_of_fix = range;
        if same_text(name.as_str(), "remove") {
            range_of_fix.end.character = range_of_fix.end.character + 1;
        }
        let mut fixes: Vec<QuickFix> = Vec::new();
        let mut i: usize = 0;
        while i < fixed.suggestions.len()
            invariant
                i <= fixed.suggestions@.len(),
                fixes@.len() == i,
                range_of_fix == replaced(range, name@),
                forall|j: int|
                    0 <= j < i ==> is_fix(
                        #[trigger] fixes@[j],
                        name@,
                        alert.matched@,
                        range,
                        fixed.suggestions@[j]@,
                    ),
            decreases fixed.suggestions@.len() - i,
        {
            fixes.push(
                QuickFix {
                    action: name.clone(),
                    matched: alert.matched.clone(),
                    range: range_of_fix,
                    new_text: fixed.suggestions[i].clone(),
                },
            );
            i = i + 1;
        }
        proof {
            assert forall|i: int| 0 <= i < fixes@.len() implies (#[trigger] fixes@[i]).new_text@
                == fixed.suggestions@[i]@ && fixes@[i].range == replaced(range, name@) by {
                assert(is_fix(
                    fixes@[i],
                    name@,
                    alert.matched@,
                    range,
                    fixed.suggestions@[i]@,
                ));
            }
        }
        Some(fixes)
    }

    /// The command that a client gives.
    pub fn execute_command(command: &str) -> (r: ServerCommand)
        ensures
            r is Sync <==> command@ == "cli.sync"@,
            r is Compile <==> command@ == "cli.compile"@,
    {
        proof {
            reveal_strlit("cli.sync");
            reveal_strlit("cli.compile");
            assert("cli.sync"@.len() != "cli.compile"@.len());
        }
        if same_text(command, "cli.sync") {
            ServerCommand::Sync
        } else if same_text(command, "cli.compile") {
            ServerCommand::Compile
        } else {
            ServerCommand::Unknown
        }
    }

    /// The call that fetches styles.
    pub fn do_sync(&self, disk: &Disk) -> (r: Result<Invocation, Error>)
        ensures
            is_call(
                r,
                program(linter(self.manager(), self.params()), disk@, false),
                config_option(text_setting(self.params(), "configPath"@)).push("sync"@),
                cwd_if_there(disk@, root_dir(self.params())),
            ),
    {
        self.vale().sync(disk, self.config_path().as_str(), self.root_path().as_str())
    }

    /// What compiling a rule begins with: its address, which is the first argument.
    pub fn do_compile(arguments: &Vec<Json>) -> (r: CompileStep)
        requires
            arguments@.len() > 0 ==> arguments@[0] is Text,
        ensures
            if arguments@.len() == 0 {
                r matches CompileStep::Refuse(said) && says(
                    said,
                    Channel::Show,
                    Level::Error,
                    "No URI provided. Please try again."@,
                )
            } else {
                r matches CompileStep::Read(address) && arguments@[0]@ == JsonModel::Text(address@)
            },
    {
        if arguments.len() > 0 {
            match &arguments[0] {
                Json::Text(address) => {
                    return CompileStep::Read(address.clone());
                },
                _ => {},
            }
        }
        CompileStep::Refuse(
            notice(Channel::Show, Level::Error, "No URI provided. Please try again."),
        )
    }

    /// The call that compiles the rule in a file.
    pub fn compile_rule(&self, disk: &Disk, path: &str) -> (r: CompileCall)
        requires
            extension(path@) is Some,
        ensures
            if extension(path@) == Some("yml"@) {
                r matches CompileCall::Run(call) && is_call(
                    call,
                    program(linter(self.manager(), self.params()), disk@, false),
                    config_option(text_setting(self.params(), "configPath"@)).push(
                        "compile"@,
                    ).push(path@),
                    cwd_if_there(disk@, root_dir_for(self.params(), path@)),
                )
            } else {
                r matches CompileCall::Refuse(said) && says(
                    said,
                    Channel::Show,
                    Level::Error,
                    "Only YAML files are supported; skipping compilation."@,
                )
            },
    {
        let is_rule = match path_extension(path) {
            Some(ext) => same_text(ext.as_str(), "yml"),
            None => false,
        };
        if !is_rule {
            return CompileCall::Refuse(
                notice(
                    Channel::Show,
                    Level::Error,
                    "Only YAML files are supported; skipping compilation.",
                ),
            );
        }
        CompileCall::Run(
            self.vale().compile(
                disk,
                self.config_path().as_str(),
                self.root_for_path(path).as_str(),
                path,
            ),
        )
    }
}

/// A document is kept exactly where it is a configuration or a rule, and then with its text.
pub proof fn configurations_and_rules_are_kept(
    documents: Map<Seq<char>, Seq<char>>,
    uri: Uri,
    config: Option<&ValeConfig>,
    disk: Map<Seq<char>, NodeModel>,
    text: Seq<char>,
)
    ensures
        kept(documents, uri.text@, sort_of(uri, config, disk), text) == if contains(
            uri.path@,
            ".vale.ini"@,
        ) || (after_dot(uri.path@) == "yml"@ && is_in_styles(config, disk, uri.path@)) {
            documents.insert(uri.text@, text)
        } else {
            documents
        },
{
    reveal_strlit("ini");
    reveal_strlit("yml");
}

/// The program that the settings name is called or reported missing, never replaced.
pub proof fn named_program_is_never_replaced(
    cli: ManagerModel,
    params: Map<Seq<char>, JsonModel>,
    disk: Map<Seq<char>, NodeModel>,
    managed: bool,
)
    requires
        text_setting(params, "valeBinaryPath"@).len() > 0,
    ensures
        ({
            let named = text_setting(params, "valeBinaryPath"@);
            match program(linter(cli, params), disk, managed) {
                Ok(path) => path == named && is_file(disk, named),
                Err(text) => text == "Configured Vale binary not found: "@ + named && !is_file(
                    disk,
                    named,
                ),
            }
        }),
{
}

/// A fix puts its text in place of exactly what the alert is about; only a removal takes one
/// character more, at its end. It keeps what is done and what the alert is about.
pub proof fn fixes_replace_the_alert(
    fix: QuickFix,
    action: Seq<char>,
    matched: Seq<char>,
    range: Range,
    suggestion: Seq<char>,
)
    requires
        is_fix(fix, action, matched, range, suggestion),
        action == "remove"@ ==> range.end.character < u32::MAX,
    ensures
        action != "remove"@ ==> fix.range == range,
        action == "remove"@ ==> {
            &&& fix.range.start == range.start
            &&& fix.range.end.line == range.end.line
            &&& fix.range.end.character == range.end.character + 1
        },
        fix.new_text@ == suggestion,
        fix.action@ == action,
        fix.matched@ == matched,
{
}

/// The linter is the one that the settings name, in all but its program the one that was there; and
/// just that one where they name none.
pub proof fn settings_name_the_program_alone(
    cli: ManagerModel,
    params: Map<Seq<char>, JsonModel>,
)
    ensures
        text_setting(params, "valeBinaryPath"@).len() == 0 ==> linter(cli, params) == cli,
        text_setting(params, "valeBinaryPath"@).len() > 0 ==> {
            let named = linter(cli, params);
            &&& named.custom_exe == Some(text_setting(params, "valeBinaryPath"@))
            &&& named.managed_exe == cli.managed_exe
            &&& named.managed_bin == cli.managed_bin
            &&& named.fallback_exe == cli.fallback_exe
            &&& named.args == cli.args
            &&& named.arch == cli.arch
        },
{
}

/// The linter runs for a document where it runs for its file, and where it runs for no document
/// where the document is in no file.
pub proof fn documents_are_linted_by_their_files(
    params: Map<Seq<char>, JsonModel>,
    uri: Uri,
)
    ensures
        uri.file_path matches Some(path) ==> root_dir_of(params, uri) == root_dir_for(
            params,
            path@,
        ),
        uri.file_path is None ==> root_dir_of(params, uri) == root_dir(params),
{
}

/// What follows the last dot of a path has no dot in it; where there is none, it is the whole path.
pub proof fn nothing_follows_but_the_last_dot(path: Seq<char>, front: Seq<char>, ext: Seq<char>)
    ensures
        !path.contains('.') ==> after_dot(path) == path,
        path == front + seq!['.'] + ext && !ext.contains('.') ==> after_dot(path) == ext,
{
    last_index_has_none_behind(path, '.');
    let k = last_index(path, '.');
    if !path.contains('.') {
        if k >= 0 {
            assert(path[k] == '.');
        }
        assert(path.skip(0) =~= path);
    }
    if path == front + seq!['.'] + ext && !ext.contains('.') {
        let n = front.len() as int;
        assert(path[n] == '.');
        assert forall|j: int| n < j < path.len() implies path[j] != '.' by {
            assert(path[j] == ext[j - n - 1]);
            assert(ext.contains(ext[j - n - 1]));
        }
        assert(k == n);
        assert(path.skip(n + 1) =~= ext);
    }
}

/// A document is a configuration where its path holds `.vale.ini`; a rule where it does not, what
/// follows its last dot is `yml`, and an entry of the configured styles has its path, whichever
/// entry that is; and nothing to the server otherwise.
pub proof fn documents_are_told_apart_by_their_paths(
    uri: Uri,
    config: Option<&ValeConfig>,
    disk: Map<Seq<char>, NodeModel>,
)
    ensures
        contains(uri.path@, ".vale.ini"@) ==> sort_of(uri, config, disk) == "ini"@,
        !contains(uri.path@, ".vale.ini"@) && after_dot(uri.path@) == "yml"@ && config is Some && (
        roots_walk(disk, config->0.searched()) matches Walk::Done(list) && exists|i: int|
            0 <= i < list.len() && (#[trigger] list[i]).path == uri.path@) ==> sort_of(
            uri,
            config,
            disk,
        ) == "yml"@,
        !contains(uri.path@, ".vale.ini"@) && !(after_dot(uri.path@) == "yml"@ && config is Some
            && (roots_walk(disk, config->0.searched()) matches Walk::Done(list) && exists|i: int|
            0 <= i < list.len() && (#[trigger] list[i]).path == uri.path@)) ==> sort_of(
            uri,
            config,
            disk,
        ).len() == 0,
        may_be_rule(uri) <==> !contains(uri.path@, ".vale.ini"@) && after_dot(uri.path@) == "yml"@,
{
    if let Some(c) = config {
        if let Walk::Done(list) = roots_walk(disk, c.searched()) {
            every_entry_is_found_by_its_path(list, uri.path@);
        }
    }
}

/// A document that is kept has the text that was sent, and no other document changes; one that is
/// not kept changes none.
pub proof fn only_the_document_sent_changes(
    documents: Map<Seq<char>, Seq<char>>,
    address: Seq<char>,
    ext: Seq<char>,
    text: Seq<char>,
    other: Seq<char>,
)
    ensures
        ext.len() == 0 ==> kept(documents, address, ext, text) == documents,
        ext.len() > 0 ==> {
            &&& kept(documents, address, ext, text).contains_key(address)
            &&& kept(documents, address, ext, text)[address] == text
        },
        other != address ==> {
            &&& kept(documents, address, ext, text).contains_key(other) <==> documents.contains_key(
                other,
            )
            &&& documents.contains_key(other) ==> kept(documents, address, ext, text)[other]
                == documents[other]
        },
{
}

/// What a document that is kept shows is true to its text, and every line of a short one is shown;
/// what other documents show does not change.
pub proof fn only_the_document_sent_shows_otherwise(
    before: Map<Seq<char>, Seq<Option<Seq<char>>>>,
    after: Map<Seq<char>, Seq<Option<Seq<char>>>>,
    address: Seq<char>,
    ext: Seq<char>,
    text: Seq<char>,
    other: Seq<char>,
)
    requires
        shows_kept(before, after, address, ext, text),
    ensures
        ext.len() == 0 ==> after == before,
        ext.len() > 0 ==> {
            &&& after.contains_key(address)
            &&& is_true_to(text, after[address])
            &&& encode_utf8(text).len() <= 900 ==> after[address] == all_shown(text)
        },
        other != address ==> {
            &&& after.contains_key(other) <==> before.contains_key(other)
            &&& before.contains_key(other) ==> after[other] == before[other]
        },
{
}

/// A line is completed as it is shown, and as an empty one where it is not.
pub proof fn lines_are_completed_as_shown(seen: Seq<Option<Seq<char>>>, i: int)
    requires
        0 <= i < seen.len(),
    ensures
        seen[i] matches Some(line) ==> line_if_shown(seen, i) == line,
        seen[i] is None ==> line_if_shown(seen, i).len() == 0,
{
}

/// A link that is found is the one link, with its target; where none is found there is none.
pub proof fn the_link_found_is_the_one_link(
    links: Seq<DocumentLink>,
    found: Option<Range>,
    target: Seq<char>,
)
    requires
        is_link_list(links, found, target),
    ensures
        found is None ==> links.len() == 0,
        found matches Some(range) ==> links.len() == 1 && links[0].range == range
            && links[0].target@ == target,
{
}

/// The server offers all that it does: whole texts on a change and a save, links, hovers,
/// completions and quick fixes, its two commands, and folders that come and go.
pub proof fn server_offers_what_it_does(offer: Capabilities)
    requires
        is_offer(offer),
    ensures
        offer.open_close && offer.full_text_on_change && offer.text_on_save,
        offer.hover && offer.links && offer.completions && offer.quick_fixes && offer.code_lenses,
        !offer.resolves_links && !offer.resolves_completions && offer.resolves_code_lenses,
        offer.workspace_folders && offer.folder_changes,
        offer.commands@.len() == 2,
        offer.commands@[0]@ == "cli.sync"@,
        offer.commands@[1]@ == "cli.compile"@,
{
    assert(texts(offer.commands@).len() == offer.commands@.len());
    assert(seq!["cli.sync"@, "cli.compile"@].len() == 2);
    assert(texts(offer.commands@)[0] == offer.commands@[0]@);
    assert(texts(offer.commands@)[1] == offer.commands@[1]@);
}

} // verus!
