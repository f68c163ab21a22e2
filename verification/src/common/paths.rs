//! Well-known places in the file system.

use vstd::prelude::*;

verus! {

/// The directory of sockets and state.
pub const RUN_DIR: &'static str = "/run/dynamod";

/// The socket on which the service manager takes commands.
pub const CONTROL_SOCK: &'static str = "/run/dynamod/control.sock";

/// The directory of service definitions.
pub const SERVICES_DIR: &'static str = "/etc/dynamod/services";

/// The directory of supervisor definitions.
pub const SUPERVISORS_DIR: &'static str = "/etc/dynamod/supervisors";

/// The environment variable that holds the descriptor of the init socket.
pub const INIT_FD_ENV: &'static str = "DYNAMOD_INIT_FD";

} // verus!
