//! What tagging a release decides: whether the working tree is clean, which version is released,
//! and whether its tag is free.
use vstd::prelude::*;
use vstd::string::StringExecFns;

verus! {

/// One row of a table read from JSON: two texts, each `None` where there is no text.
pub type Row = (Option<String>, Option<String>);

/// What a text that may be missing holds.
pub open spec fn text_view(text: Option<String>) -> Option<Seq<char>> {
    match text {
        Some(text) => Some(text@),
        None => None,
    }
}

/// What rows hold.
pub open spec fn rows_view(rows: Seq<Row>) -> Seq<(Option<Seq<char>>, Option<Seq<char>>)> {
    rows.map_values(|row: Row| (text_view(row.0), text_view(row.1)))
}

/// What reading a table from JSON gave.
pub open spec fn table_view(table: Result<Option<Vec<Row>>, String>) -> Result<
    Option<Seq<(Option<Seq<char>>, Option<Seq<char>>)>>,
    Seq<char>,
> {
    match table {
        Ok(Some(rows)) => Ok(Some(rows_view(rows@))),
        Ok(None) => Ok(None),
        Err(message) => Err(message@),
    }
}

/// What `serde_json` finds in `bytes`: the message of the error if they are not JSON; else, for
/// each element of the array under `list`, the texts under `first` and `second`; `None` if there
/// is no such array.
pub uninterp spec fn json_table(
    bytes: Seq<u8>,
    list: Seq<char>,
    first: Seq<char>,
    second: Seq<char>,
) -> Result<Option<Seq<(Option<Seq<char>>, Option<Seq<char>>)>>, Seq<char>>;

/// Calls `serde_json::from_slice`, and looks into the value. Claimed of it: what is found depends
/// on the bytes and the three names alone.
#[verifier::external_body]
fn read_table(bytes: &[u8], list: &str, first: &str, second: &str) -> (table: Result<
    Option<Vec<Row>>,
    String,
>)
    ensures
        table_view(table) == json_table(bytes@, list@, first@, second@),
{
    let text = |value: &serde_json::Value| value.as_str().map(str::to_string);
    serde_json::from_slice::<serde_json::Value>(bytes).map_err(|e| e.to_string()).map(|value| {
        let items = value[list].as_array();
        items.map(|items| items.iter().map(|i| (text(&i[first]), text(&i[second]))).collect())
    })
}

/// The second text of the first row whose first text is `name`.
pub open spec fn version_in(
    rows: Seq<(Option<Seq<char>>, Option<Seq<char>>)>,
    name: Seq<char>,
) -> Option<Seq<char>>
    decreases rows.len(),
{
    if rows.len() == 0 {
        None
    } else if rows[0].0 == Some(name) {
        rows[0].1
    } else {
        version_in(rows.skip(1), name)
    }
}

/// The version of the package that is released, given the packages with their versions, or the
/// message why there is none.
pub open spec fn released_version(
    table: Result<Option<Seq<(Option<Seq<char>>, Option<Seq<char>>)>>, Seq<char>>,
) -> Result<Seq<char>, Seq<char>> {
    match table {
        Err(message) => Err("failed to parse cargo metadata output: "@ + message),
        Ok(None) => Err("could not find yabiir's version in cargo metadata output"@),
        Ok(Some(rows)) => match version_in(rows, "yabiir"@) {
            Some(version) => Ok(version),
            None => Err("could not find yabiir's version in cargo metadata output"@),
        },
    }
}

/// What a text or a message is.
pub open spec fn outcome_view(outcome: Result<String, String>) -> Result<Seq<char>, Seq<char>> {
    match outcome {
        Ok(text) => Ok(text@),
        Err(message) => Err(message@),
    }
}

/// Finds the version of the package that is released among packages with their versions.
pub fn find_version(table: Result<Option<Vec<Row>>, String>) -> (version: Result<String, String>)
    ensures
        outcome_view(version) == released_version(table_view(table)),
{
    let ghost seen = table_view(table);
    let rows = match table {
        Err(message) => {
            return Err(
                String::from_str("failed to parse cargo metadata output: ").concat(
                    message.as_str(),
                ),
            );
        },
        Ok(None) => {
            return Err(
                String::from_str("could not find yabiir's version in cargo metadata output"),
            );
        },
        Ok(Some(rows)) => rows,
    };
    let wanted = String::from_str("yabiir");
    let ghost all = rows_view(rows@);
    let mut i: usize = 0;
    assert(all.skip(0) =~= all);
    while i < rows.len()
        invariant
            i <= rows@.len(),
            all == rows_view(rows@),
            seen == table_view(table),
            seen == Ok::<
                Option<Seq<(Option<Seq<char>>, Option<Seq<char>>)>>,
                Seq<char>,
            >(Some(all)),
            wanted@ == "yabiir"@,
            version_in(all.skip(i as int), "yabiir"@) == version_in(all, "yabiir"@),
        decreases rows@.len() - i,
    {
        let (name, version) = &rows[i];
        let found = match name {
            Some(name) => *name == wanted,
            None => false,
        };
        proof {
            assert(all.skip(i as int)[0] == all[i as int]);
            assert(all[i as int] == (text_view(*name), text_view(*version)));
            assert(found == (text_view(*name) == Some("yabiir"@)));
            assert(all.skip(i as int).skip(1) =~= all.skip(i + 1));
        }
        if found {
            return match version {
                Some(version) => Ok(version.clone()),
                None => Err(
                    String::from_str("could not find yabiir's version in cargo metadata output"),
                ),
            };
        }
        i += 1;
    }
    Err(String::from_str("could not find yabiir's version in cargo metadata output"))
}

/// The version of the package that is released, from what `cargo metadata` printed.
pub fn yabiir_version(metadata: &[u8]) -> (version: Result<String, String>)
    ensures
        outcome_view(version) == released_version(
            json_table(metadata@, "packages"@, "name"@, "version"@),
        ),
{
    find_version(read_table(metadata, "packages", "name", "version"))
}

/// Whether the working tree is clean, from what `git status --porcelain` printed.
pub fn working_tree_is_clean(status: &[u8]) -> (clean: bool)
    ensures
        clean == (status@.len() == 0),
{
    status.len() == 0
}

/// Whether a tag exists, from what `git tag --list` printed for it.
pub fn tag_exists(listed: &[u8]) -> (exists: bool)
    ensures
        exists == (listed@.len() > 0),
{
    listed.len() > 0
}

/// Refuses to release from a working tree that is not clean.
pub fn require_clean_tree(status: &[u8]) -> (outcome: Result<(), String>)
    ensures
        status@.len() == 0 ==> outcome is Ok,
        status@.len() > 0 ==> outcome is Err && outcome->Err_0@
            == "working tree has uncommitted changes — commit or stash them before releasing"@,
{
    if working_tree_is_clean(status) {
        Ok(())
    } else {
        Err(
            String::from_str(
                "working tree has uncommitted changes — commit or stash them before releasing",
            ),
        )
    }
}

/// The tag of a version.
pub fn tag_for(version: &str) -> (tag: String)
    ensures
        tag@ == "v"@ + version@,
{
    String::from_str("v").concat(version)
}

/// Refuses to release under a tag that exists.
pub fn require_free_tag(tag: &str, listed: &[u8]) -> (outcome: Result<(), String>)
    ensures
        listed@.len() == 0 ==> outcome is Ok,
        listed@.len() > 0 ==> outcome is Err && outcome->Err_0@ == "tag "@ + tag@
            + " already exists"@,
{
    if tag_exists(listed) {
        Err(String::from_str("tag ").concat(tag).concat(" already exists"))
    } else {
        Ok(())
    }
}

/// Which command a release waits for.
#[derive(Debug)]
pub enum ReleaseState {
    Status,
    Metadata,
    Tags { version: String },
    Tagging { version: String },
    Pushing { version: String },
}

/// What a [`ReleaseState`] says.
#[verifier::ext_equal]
pub enum ReleaseStateView {
    Status,
    Metadata,
    Tags { version: Seq<char> },
    Tagging { version: Seq<char> },
    Pushing { version: Seq<char> },
}

impl View for ReleaseState {
    type V = ReleaseStateView;

    open spec fn view(&self) -> ReleaseStateView {
        match *self {
            ReleaseState::Status => ReleaseStateView::Status,
            ReleaseState::Metadata => ReleaseStateView::Metadata,
            ReleaseState::Tags { version } => ReleaseStateView::Tags { version: version@ },
            ReleaseState::Tagging { version } => ReleaseStateView::Tagging { version: version@ },
            ReleaseState::Pushing { version } => ReleaseStateView::Pushing { version: version@ },
        }
    }
}

/// What a release asks for next.
#[derive(Debug)]
pub enum ReleaseAction {
    /// Run `git status --porcelain`.
    ReadStatus,
    /// Run `cargo metadata`.
    ReadMetadata,
    /// Run `git tag --list` for a tag.
    ListTags { tag: String },
    /// Tag the current commit.
    CreateTag { tag: String, version: String },
    /// Push a tag.
    PushTag { tag: String },
    /// The release is done.
    Finish { tag: String },
    /// The release is given up.
    Refuse { message: String },
}

/// What a [`ReleaseAction`] says.
#[verifier::ext_equal]
pub enum ReleaseActionView {
    ReadStatus,
    ReadMetadata,
    ListTags { tag: Seq<char> },
    CreateTag { tag: Seq<char>, version: Seq<char> },
    PushTag { tag: Seq<char> },
    Finish { tag: Seq<char> },
    Refuse { message: Seq<char> },
}

impl View for ReleaseAction {
    type V = ReleaseActionView;

    open spec fn view(&self) -> ReleaseActionView {
        match *self {
            ReleaseAction::ReadStatus => ReleaseActionView::ReadStatus,
            ReleaseAction::ReadMetadata => ReleaseActionView::ReadMetadata,
            ReleaseAction::ListTags { tag } => ReleaseActionView::ListTags { tag: tag@ },
            ReleaseAction::CreateTag { tag, version } => ReleaseActionView::CreateTag {
                tag: tag@,
                version: version@,
            },
            ReleaseAction::PushTag { tag } => ReleaseActionView::PushTag { tag: tag@ },
            ReleaseAction::Finish { tag } => ReleaseActionView::Finish { tag: tag@ },
            ReleaseAction::Refuse { message } => ReleaseActionView::Refuse { message: message@ },
        }
    }
}

/// How a command went: it could not be run, or it ended.
#[derive(Debug)]
pub enum CommandReply {
    NotRun { error: String },
    Ended { success: bool, stdout: Vec<u8>, stderr: String },
}

/// What a [`CommandReply`] says.
#[verifier::ext_equal]
pub enum CommandReplyView {
    NotRun { error: Seq<char> },
    Ended { success: bool, stdout: Seq<u8>, stderr: Seq<char> },
}

impl View for CommandReply {
    type V = CommandReplyView;

    open spec fn view(&self) -> CommandReplyView {
        match *self {
            CommandReply::NotRun { error } => CommandReplyView::NotRun { error: error@ },
            CommandReply::Ended { success, stdout, stderr } => CommandReplyView::Ended {
                success,
                stdout: stdout@,
                stderr: stderr@,
            },
        }
    }
}

/// The bytes that a command printed; none where it was not run.
pub open spec fn printed(reply: CommandReplyView) -> Seq<u8> {
    match reply {
        CommandReplyView::NotRun { .. } => Seq::empty(),
        CommandReplyView::Ended { stdout, .. } => stdout,
    }
}

/// How a message names the command that a release waits for.
pub open spec fn command_name(state: ReleaseStateView) -> Seq<char> {
    match state {
        ReleaseStateView::Status => "git status"@,
        ReleaseStateView::Metadata => "cargo metadata"@,
        ReleaseStateView::Tags { .. } => "git tag --list"@,
        ReleaseStateView::Tagging { .. } => "git"@,
        ReleaseStateView::Pushing { .. } => "git"@,
    }
}

/// The end of a release that is given up.
pub open spec fn refused(message: Seq<char>) -> (Option<ReleaseStateView>, ReleaseActionView) {
    (None, ReleaseActionView::Refuse { message })
}

/// What comes after the version was looked for.
pub open spec fn after_version(version: Result<Seq<char>, Seq<char>>) -> (
    Option<ReleaseStateView>,
    ReleaseActionView,
) {
    match version {
        Ok(version) => (
            Some(ReleaseStateView::Tags { version }),
            ReleaseActionView::ListTags { tag: "v"@ + version },
        ),
        Err(message) => refused(message),
    }
}

/// What comes after a command has ended, given the version that `stdout` holds as metadata.
pub open spec fn after_command(
    state: ReleaseStateView,
    success: bool,
    stdout: Seq<u8>,
    stderr: Seq<char>,
    found: Result<Seq<char>, Seq<char>>,
) -> (Option<ReleaseStateView>, ReleaseActionView) {
    match state {
        ReleaseStateView::Status => if stdout.len() == 0 {
            (Some(ReleaseStateView::Metadata), ReleaseActionView::ReadMetadata)
        } else {
            refused(
                "working tree has uncommitted changes — commit or stash them before releasing"@,
            )
        },
        ReleaseStateView::Metadata => if success {
            after_version(found)
        } else {
            refused("cargo metadata failed: "@ + stderr)
        },
        ReleaseStateView::Tags { version } => if stdout.len() == 0 {
            (
                Some(ReleaseStateView::Tagging { version }),
                ReleaseActionView::CreateTag { tag: "v"@ + version, version },
            )
        } else {
            refused("tag "@ + ("v"@ + version) + " already exists"@)
        },
        ReleaseStateView::Tagging { version } => if success {
            (
                Some(ReleaseStateView::Pushing { version }),
                ReleaseActionView::PushTag { tag: "v"@ + version },
            )
        } else {
            refused("`git tag "@ + ("v"@ + version) + "` failed"@)
        },
        ReleaseStateView::Pushing { version } => if success {
            (None, ReleaseActionView::Finish { tag: "v"@ + version })
        } else {
            refused("`git push origin "@ + ("v"@ + version) + "` failed"@)
        },
    }
}

/// What comes next, given the version that the reply holds as metadata. No state means that the
/// release has ended.
pub open spec fn release_next(
    state: ReleaseStateView,
    reply: CommandReplyView,
    found: Result<Seq<char>, Seq<char>>,
) -> (Option<ReleaseStateView>, ReleaseActionView) {
    match reply {
        CommandReplyView::NotRun { error } => refused(
            "failed to run "@ + command_name(state) + ": "@ + error,
        ),
        CommandReplyView::Ended { success, stdout, stderr } => after_command(
            state,
            success,
            stdout,
            stderr,
            found,
        ),
    }
}

/// What a state that may be missing says.
pub open spec fn state_view(state: Option<ReleaseState>) -> Option<ReleaseStateView> {
    match state {
        Some(state) => Some(state@),
        None => None,
    }
}

impl ReleaseState {
    /// Starts a release.
    pub fn start() -> (begun: (ReleaseState, ReleaseAction))
        ensures
            begun.0@ == ReleaseStateView::Status,
            begun.1@ == ReleaseActionView::ReadStatus,
    {
        (ReleaseState::Status, ReleaseAction::ReadStatus)
    }

    /// Says what comes after the command that the release has waited for. No state means that the
    /// release has ended.
    pub fn next(self, reply: &CommandReply) -> (next: (Option<ReleaseState>, ReleaseAction))
        ensures
            (state_view(next.0), next.1@) == release_next(
                self@,
                reply@,
                released_version(
                    json_table(printed(reply@), "packages"@, "name"@, "version"@),
                ),
            ),
    {
        match reply {
            CommandReply::NotRun { error } => {
                let message = String::from_str("failed to run ").concat(self.command());
                refuse(message.concat(": ").concat(error.as_str()))
            },
            CommandReply::Ended { success, stdout, stderr } => self.ended(
                *success,
                stdout.as_slice(),
                stderr.as_str(),
            ),
        }
    }

    fn command(&self) -> (name: &'static str)
        ensures
            name@ == command_name(self@),
    {
        match self {
            ReleaseState::Status => "git status",
            ReleaseState::Metadata => "cargo metadata",
            ReleaseState::Tags { .. } => "git tag --list",
            ReleaseState::Tagging { .. } => "git",
            ReleaseState::Pushing { .. } => "git",
        }
    }

    fn ended(self, success: bool, stdout: &[u8], stderr: &str) -> (next: (
        Option<ReleaseState>,
        ReleaseAction,
    ))
        ensures
            (state_view(next.0), next.1@) == after_command(
                self@,
                success,
                stdout@,
                stderr@,
                released_version(json_table(stdout@, "packages"@, "name"@, "version"@)),
            ),
    {
        match self {
            ReleaseState::Status => match require_clean_tree(stdout) {
                Ok(_) => (Some(ReleaseState::Metadata), ReleaseAction::ReadMetadata),
                Err(message) => refuse(message),
            },
            ReleaseState::Metadata => if success {
                after_metadata(yabiir_version(stdout))
            } else {
                refuse(String::from_str("cargo metadata failed: ").concat(stderr))
            },
            ReleaseState::Tags { version } => {
                let tag = tag_for(version.as_str());
                match require_free_tag(tag.as_str(), stdout) {
                    Ok(_) => {
                        let named = String::from_str(version.as_str());
                        (
                            Some(ReleaseState::Tagging { version }),
                            ReleaseAction::CreateTag { tag, version: named },
                        )
                    },
                    Err(message) => refuse(message),
                }
            },
            ReleaseState::Tagging { version } => {
                let tag = tag_for(version.as_str());
                if success {
                    (Some(ReleaseState::Pushing { version }), ReleaseAction::PushTag { tag })
                } else {
                    refuse(String::from_str("`git tag ").concat(tag.as_str()).concat("` failed"))
                }
            },
            ReleaseState::Pushing { version } => {
                let tag = tag_for(version.as_str());
                if success {
                    (None, ReleaseAction::Finish { tag })
                } else {
                    let message = String::from_str("`git push origin ").concat(tag.as_str());
                    refuse(message.concat("` failed"))
                }
            },
        }
    }
}

/// Says what comes after the version of the package was looked for.
pub fn after_metadata(version: Result<String, String>) -> (next: (
    Option<ReleaseState>,
    ReleaseAction,
))
    ensures
        (state_view(next.0), next.1@) == after_version(outcome_view(version)),
{
    match version {
        Ok(version) => {
            let tag = tag_for(version.as_str());
            (Some(ReleaseState::Tags { version }), ReleaseAction::ListTags { tag })
        },
        Err(message) => refuse(message),
    }
}

fn refuse(message: String) -> (next: (Option<ReleaseState>, ReleaseAction))
    ensures
        (state_view(next.0), next.1@) == refused(message@),
{
    (None, ReleaseAction::Refuse { message })
}

/// What a release that goes on has learnt: the tree is clean before the version is read, the
/// version is read before its tag is looked up, and the tag is free before it is made. Nothing is
/// pushed but the tag that was just made, and a release ends only when it is done or given up.
pub proof fn law_a_release_tags_only_what_is_ready(
    state: ReleaseStateView,
    reply: CommandReplyView,
    found: Result<Seq<char>, Seq<char>>,
)
    ensures
        ({
            let (after, action) = release_next(state, reply, found);
            let succeeded = reply is Ended && reply->success;
            let silent = reply is Ended && printed(reply).len() == 0;
            &&& action is ReadMetadata ==> state is Status && silent
            &&& action is ListTags ==> state is Metadata && succeeded && found is Ok
                && action->ListTags_tag == "v"@ + found->Ok_0 && after == Some(
                ReleaseStateView::Tags { version: found->Ok_0 },
            )
            &&& action is CreateTag ==> state is Tags && silent && action->CreateTag_tag == "v"@
                + state->Tags_version && after == Some(
                ReleaseStateView::Tagging { version: state->Tags_version },
            )
            &&& action is PushTag ==> state is Tagging && succeeded && action->PushTag_tag == "v"@
                + state->Tagging_version && after == Some(
                ReleaseStateView::Pushing { version: state->Tagging_version },
            )
            &&& action is Finish ==> state is Pushing && succeeded && action->Finish_tag == "v"@
                + state->Pushing_version
            &&& after is None <==> action is Finish || action is Refuse
        }),
{
}

} // verus!
