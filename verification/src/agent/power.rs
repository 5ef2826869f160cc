//! Rebooting the host, when the Agent's configuration allows it.

use vstd::prelude::*;

use crate::agent::error::{AgentError, ErrorKind};
use crate::protocol::{CommandResult, CommandStatus, SystemCapabilities};
use crate::text::{decimal, owned, push_decimal, push_str, trim};

verus! {

#[derive(Debug, Clone, Copy)]
pub struct PowerManager {
    allow_reboot: bool,
}

impl PowerManager {
    pub fn new(allow_reboot: bool) -> (r: PowerManager)
        ensures
            r.allowed() == allow_reboot,
    {
        PowerManager { allow_reboot }
    }

    pub closed spec fn allowed(&self) -> bool {
        self.allow_reboot
    }

    /// What the host may do, as far as rebooting goes.
    pub fn capabilities(&self) -> (r: SystemCapabilities)
        ensures
            r.reboot_allowed == self.allowed(),
            !r.update_allowed,
    {
        SystemCapabilities { reboot_allowed: self.allow_reboot, update_allowed: false }
    }

    /// Whether a reboot may be asked of systemd: it must be allowed, on a
    /// Linux host.
    pub fn check_reboot(&self, on_linux: bool) -> (r: Result<(), AgentError>)
        ensures
            !self.allowed() ==> (r matches Err(e) && e.kind == ErrorKind::Forbidden && e.message@
                == "system reboot is disabled in the Agent configuration"@),
            self.allowed() && !on_linux ==> (r matches Err(e) && e.kind == ErrorKind::Unavailable && e.message@
                == "system reboot requires a Linux host"@),
            self.allowed() && on_linux ==> r is Ok,
    {
        if !self.allow_reboot {
            return Err(AgentError::forbidden("system reboot is disabled in the Agent configuration"));
        }
        if !on_linux {
            return Err(AgentError::unavailable("system reboot requires a Linux host"));
        }
        Ok(())
    }
}

/// `reboot-{milliseconds}-{sequence}`.
pub fn command_id(timestamp_ms: u64, sequence: u64) -> (r: String)
    ensures
        r@ == "reboot-"@ + decimal(timestamp_ms as nat) + "-"@ + decimal(sequence as nat),
{
    let mut id = owned("reboot-");
    push_decimal(&mut id, timestamp_ms);
    push_str(&mut id, "-");
    push_decimal(&mut id, sequence);
    id
}

/// What `systemctl --no-block reboot` came to: accepted under
/// `command_id`, or an internal error carrying its stderr (trimmed), or a
/// fixed message when it printed nothing.
pub fn reboot_outcome(command_id: String, succeeded: bool, stderr: &str) -> (r: Result<CommandResult, AgentError>)
    ensures
        succeeded ==> (r matches Ok(c) && c.command_id@ == command_id@ && c.status == CommandStatus::Accepted
            && crate::protocol::opt_view(c.message) == Some("system reboot accepted"@)),
        !succeeded ==> (r matches Err(e) && e.kind == ErrorKind::Internal && e.message@ == if trim(stderr@).len()
            == 0 {
            "system reboot command failed"@
        } else {
            trim(stderr@)
        }),
{
    if !succeeded {
        let v = crate::text::chars_of(stderr);
        let (s, e) = crate::text::trim_span(&v, 0, v.len());
        assert(v@.subrange(0, v@.len() as int) =~= stderr@);
        if s == e {
            return Err(AgentError::internal("system reboot command failed"));
        }
        let message = crate::text::string_of(&v, s, e);
        return Err(AgentError::internal(message.as_str()));
    }
    Ok(CommandResult { command_id, status: CommandStatus::Accepted, message: Some(owned("system reboot accepted")) })
}

} // verus!
