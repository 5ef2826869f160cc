//! Self-update: the installer the Server fetched is staged in the runtime
//! directory and launched as a transient systemd unit of its own, so that
//! restarting the Agent does not kill it half-way.

use vstd::prelude::*;

use crate::agent::error::{AgentError, ErrorKind};
use crate::agent::services::{utf8_len, utf8_len_within};
use crate::protocol::{CommandResult, CommandStatus, is_valid_release_tag, valid_release_tag};
use crate::text::{owned, push_str, texts, trim};

verus! {

pub const MAX_SCRIPT_BYTES: u64 = 262144;

pub const UPDATE_UNIT_NAME: &'static str = "deckox-update";

/// `Path::join` of a relative name: `dir`, a `/` unless it ends with one,
/// and `name`; `name` alone for an empty `dir`.
pub open spec fn joined_path(dir: Seq<char>, name: Seq<char>) -> Seq<char> {
    if dir.len() == 0 {
        name
    } else if dir.last() == '/' {
        dir + name
    } else {
        dir + "/"@ + name
    }
}

pub fn join_path(dir: &str, name: &str) -> (r: String)
    ensures
        r@ == joined_path(dir@, name@),
{
    let v = crate::text::chars_of(dir);
    let mut out = owned(dir);
    if v.len() > 0 && v[v.len() - 1] != '/' {
        push_str(&mut out, "/");
    }
    push_str(&mut out, name);
    out
}

#[derive(Debug, Clone)]
pub struct UpdateManager {
    allow_update: bool,
    script_path: String,
}

impl UpdateManager {
    pub fn new(allow_update: bool, runtime_dir: &str) -> (r: UpdateManager)
        ensures
            r.allowed_spec() == allow_update,
            r.script_spec() == joined_path(runtime_dir@, "update.sh"@),
    {
        UpdateManager { allow_update, script_path: join_path(runtime_dir, "update.sh") }
    }

    pub closed spec fn allowed_spec(&self) -> bool {
        self.allow_update
    }

    pub closed spec fn script_spec(&self) -> Seq<char> {
        self.script_path@
    }

    pub fn allowed(&self) -> (r: bool)
        ensures
            r == self.allowed_spec(),
    {
        self.allow_update
    }

    /// Where the installer is staged.
    pub fn script_path(&self) -> (r: &str)
        ensures
            r@ == self.script_spec(),
    {
        self.script_path.as_str()
    }

    /// Whether an update to `target_version` with this installer may start:
    /// updates must be allowed, the host must be Linux, the version a
    /// release tag, and the script between 1 byte and 256 KiB.
    pub fn check_trigger(&self, target_version: &str, install_script: &str, on_linux: bool) -> (r: Result<(), AgentError>)
        ensures
            !self.allowed_spec() ==> (r matches Err(e) && e.kind == ErrorKind::Forbidden && e.message@
                == "self-update is disabled in the Agent configuration"@),
            self.allowed_spec() && !on_linux ==> (r matches Err(e) && e.kind == ErrorKind::Unavailable
                && e.message@ == "self-update requires a Linux host"@),
            self.allowed_spec() && on_linux && !valid_release_tag(target_version@) ==> (r matches Err(e) && e.kind
                == ErrorKind::BadRequest && e.message@ == "invalid target version"@),
            self.allowed_spec() && on_linux && valid_release_tag(target_version@) && (install_script@.len() == 0
                || utf8_len(install_script@) > MAX_SCRIPT_BYTES) ==> (r matches Err(e) && e.kind
                == ErrorKind::BadRequest && e.message@ == "invalid install script"@),
            self.allowed_spec() && on_linux && valid_release_tag(target_version@) && install_script@.len() > 0
                && utf8_len(install_script@) <= MAX_SCRIPT_BYTES ==> r is Ok,
    {
        if !self.allow_update {
            return Err(AgentError::forbidden("self-update is disabled in the Agent configuration"));
        }
        if !on_linux {
            return Err(AgentError::unavailable("self-update requires a Linux host"));
        }
        if !is_valid_release_tag(target_version) {
            return Err(AgentError::bad_request("invalid target version"));
        }
        if crate::text::chars_of(install_script).len() == 0 || !utf8_len_within(install_script, MAX_SCRIPT_BYTES) {
            return Err(AgentError::bad_request("invalid install script"));
        }
        Ok(())
    }

    /// The arguments of `systemd-run` that launch the staged installer.
    pub fn launch_arguments(&self, target_version: &str) -> (r: Vec<String>)
        ensures
            texts(r@) == seq![
                "--collect"@,
                "--no-block"@,
                "--unit=deckox-update"@,
                "--setenv=DECKOX_VERSION="@ + target_version@,
                "--"@,
                "/bin/sh"@,
                self.script_spec(),
            ],
    {
        let mut setenv = owned("--setenv=DECKOX_VERSION=");
        push_str(&mut setenv, target_version);
        let r = vec![
            owned("--collect"),
            owned("--no-block"),
            owned("--unit=deckox-update"),
            setenv,
            owned("--"),
            owned("/bin/sh"),
            self.script_path.clone(),
        ];
        assert(texts(r@) =~= seq![
            "--collect"@,
            "--no-block"@,
            "--unit=deckox-update"@,
            "--setenv=DECKOX_VERSION="@ + target_version@,
            "--"@,
            "/bin/sh"@,
            self.script_spec(),
        ]);
        r
    }
}

/// What the launch came to: accepted, or a conflict carrying what
/// `systemd-run` printed on stderr (trimmed), or a fixed message when it
/// printed nothing.
pub fn launch_outcome(target_version: &str, succeeded: bool, stderr: &str) -> (r: Result<CommandResult, AgentError>)
    ensures
        succeeded ==> (r matches Ok(c) && c.command_id@ == "update-"@ + target_version@ && c.status
            == CommandStatus::Accepted && crate::protocol::opt_view(c.message) == Some("update to "@ + target_version@
            + " accepted"@)),
        !succeeded ==> (r matches Err(e) && e.kind == ErrorKind::Conflict && e.message@ == if trim(stderr@).len() == 0 {
            "update launch failed"@
        } else {
            trim(stderr@)
        }),
{
    if !succeeded {
        let v = crate::text::chars_of(stderr);
        let (s, e) = crate::text::trim_span(&v, 0, v.len());
        assert(v@.subrange(0, v@.len() as int) =~= stderr@);
        if s == e {
            return Err(AgentError::conflict("update launch failed"));
        }
        let message = crate::text::string_of(&v, s, e);
        return Err(AgentError::conflict(message.as_str()));
    }
    let mut id = owned("update-");
    push_str(&mut id, target_version);
    let mut message = owned("update to ");
    push_str(&mut message, target_version);
    push_str(&mut message, " accepted");
    Ok(CommandResult { command_id: id, status: CommandStatus::Accepted, message: Some(message) })
}

} // verus!
