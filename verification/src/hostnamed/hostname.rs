//! The name of the machine and what is known about it.

use crate::hostnamed::keyval::{file_field, read_field, update, updated};
use crate::text::num::{dec, parse_nat, parsed_nat, written_number_is_read_back};
use crate::text::scan::{
    lemma_strip_behind, stripped, trim, trimmed_start, white_space_around_is_taken_off, Class,
};
use crate::text::{cat, cat4, chars_of, opt_text, owned, string_of};
use vstd::prelude::*;

verus! {

/// The name of the machine, by its file.
pub open spec fn static_name(content: Option<Seq<char>>) -> Seq<char> {
    match content {
        Some(c) => stripped(c),
        None => "localhost"@,
    }
}

/// The text that was read, if any.
pub open spec fn read_text(content: Option<&str>) -> Option<Seq<char>> {
    match content {
        Some(c) => Some(c@),
        None => None,
    }
}

/// The name of the machine, by its file.
pub fn read_hostname(content: Option<&str>) -> (r: String)
    ensures
        r@ == static_name(read_text(content)),
{
    match content {
        Some(c) => {
            let t = chars_of(c);
            string_of(trim(&t))
        },
        None => owned("localhost"),
    }
}

/// A name without white space at its ends that was written is read back.
pub proof fn written_hostname_is_read_back(hostname: Seq<char>)
    requires
        hostname.len() > 0 ==> !Class::White.has(hostname[0]) && !Class::White.has(hostname.last()),
    ensures
        static_name(Some(hostname + "\n"@)) == hostname,
{
    reveal_strlit("\n");
    assert(hostname + "\n"@ =~= hostname.push('\n'));
    if hostname.len() > 0 {
        lemma_strip_behind(hostname, '\n');
    } else {
        let s = hostname.push('\n');
        assert(s.drop_first() =~= hostname);
        assert(trimmed_start(hostname, Class::White) == hostname);
        assert(trimmed_start(s, Class::White) == hostname);
    }
}

/// How many bytes stand before the first zero.
pub fn until_zero(buf: &[u8]) -> (r: usize)
    ensures
        r <= buf@.len(),
        forall|i: int| 0 <= i < r ==> buf@[i] != 0,
        r < buf@.len() ==> buf@[r as int] == 0,
{
    let mut i: usize = 0;
    while i < buf.len() && buf[i] != 0
        invariant
            i <= buf@.len(),
            forall|k: int| 0 <= k < i ==> buf@[k] != 0,
        decreases buf@.len() - i,
    {
        i += 1;
    }
    i
}

/// What the firmware tells.
pub open spec fn firmware_read(
    content: Option<&str>,
    r: Option<Seq<char>>,
) -> bool {
    r == match content {
        Some(c) if stripped(c@).len() > 0 => Some(stripped(c@)),
        _ => None,
    }
}

/// What the firmware tells, without white space around it; nothing where it
/// tells nothing.
pub fn read_dmi(content: Option<&str>) -> (r: Option<String>)
    ensures
        firmware_read(content, opt_text(r)),
{
    match content {
        Some(c) => {
            let t = chars_of(c);
            let s = trim(&t);
            if s.len() > 0 {
                Some(string_of(s))
            } else {
                None
            }
        },
        None => None,
    }
}

/// A field of the file that describes the system.
pub open spec fn release_field_read(
    etc: Option<&str>,
    usr: Option<&str>,
    key: Seq<char>,
    r: Option<Seq<char>>,
) -> bool {
    r == file_field(
                match etc {
                    Some(c) => Some(c),
                    None => usr,
                },
                key,
            )
}

/// A field of the file that describes the system: the first of the two that
/// can be read.
pub fn read_os_release_field(etc: Option<&str>, usr: Option<&str>, key: &str) -> (r: Option<String>)
    ensures
        release_field_read(etc, usr, key@, opt_text(r)),
{
    match etc {
        Some(c) => read_field(Some(c), key),
        None => read_field(usr, key),
    }
}

/// A field of the file that describes the machine.
pub fn read_machine_info_field(content: Option<&str>, key: &str) -> (r: Option<String>)
    ensures
        opt_text(r) == file_field(content, key@),
{
    read_field(content, key)
}

/// The file that describes the machine, after a field was given a value.
pub fn update_machine_info(content: Option<&str>, key: &str, value: &str) -> (r: String)
    ensures
        r@ == updated(
            match content {
                Some(c) => c@,
                None => Seq::empty(),
            },
            key@,
            value@,
        ),
{
    update(content, key, value)
}

/// What the machine is, by the number that the firmware has for its case.
pub open spec fn case_named(n: nat) -> Option<Seq<char>> {
    if 3 <= n <= 7 || n == 15 || n == 16 {
        Some("desktop"@)
    } else if 8 <= n <= 10 || n == 14 {
        Some("laptop"@)
    } else if n == 11 {
        Some("handset"@)
    } else if n == 17 || n == 23 || n == 28 || n == 29 {
        Some("server"@)
    } else if 30 <= n <= 32 {
        Some("tablet"@)
    } else {
        None
    }
}

/// What the machine is, by what the firmware tells of its case.
pub open spec fn case_of(content: Option<&str>) -> Option<Seq<char>> {
    match content {
        Some(c) => match parsed_nat(stripped(c@), u32::MAX as nat) {
            Some(n) => case_named(n),
            None => None,
        },
        None => None,
    }
}

/// What the machine is, by what the firmware tells of its case.
pub fn detect_chassis(content: Option<&str>) -> (r: Option<String>)
    ensures
        opt_text(r) == case_of(content),
{
    let c = match content {
        Some(c) => chars_of(c),
        None => {
            return None;
        },
    };
    let n = match parse_nat(trim(&c), 0xffff_ffff) {
        Some(n) => n,
        None => {
            return None;
        },
    };
    if (3 <= n && n <= 7) || n == 15 || n == 16 {
        Some(owned("desktop"))
    } else if (8 <= n && n <= 10) || n == 14 {
        Some(owned("laptop"))
    } else if n == 11 {
        Some(owned("handset"))
    } else if n == 17 || n == 23 || n == 28 || n == 29 {
        Some(owned("server"))
    } else if 30 <= n && n <= 32 {
        Some(owned("tablet"))
    } else {
        None
    }
}

fn or_text(s: Option<String>, d: &str) -> (r: String)
    ensures
        r@ == match opt_text(s) {
            Some(t) => t,
            None => d@,
        },
{
    match s {
        Some(t) => t,
        None => owned(d),
    }
}

/// What is told and set about the machine.
#[derive(Debug, Clone, Copy)]
pub struct HostnameService;

impl HostnameService {
    /// What the file with the name of the machine holds.
    pub fn set_static_hostname(&self, hostname: &str) -> (r: String)
        ensures
            hostname_file(hostname@, r@),
    {
        cat(hostname, "\n")
    }

    /// The name of the machine and of its system.
    pub fn describe(&self, hostname: Option<&str>, etc: Option<&str>, usr: Option<&str>) -> (r: String)
        ensures
            r@ == "hostname="@ + static_name(read_text(hostname)) + ", os="@ + match file_field(
                match etc {
                    Some(c) => Some(c),
                    None => usr,
                },
                "PRETTY_NAME"@,
            ) {
                Some(t) => t,
                None => ""@,
            },
    {
        let name = read_hostname(hostname);
        let os = or_text(read_os_release_field(etc, usr, "PRETTY_NAME"), "");
        cat4("hostname=", name.as_str(), ", os=", os.as_str())
    }

    /// Where the name comes from: its file, or nowhere.
    pub fn hostname_source(&self, file_exists: bool) -> (r: &'static str)
        ensures
            source_told(file_exists, r@),
    {
        if file_exists {
            "static"
        } else {
            "default"
        }
    }

    /// The icon of the machine.
    pub fn icon_name(&self, machine_info: Option<&str>) -> (r: String)
        ensures
            icon_told(machine_info, r@),
    {
        or_text(read_field(machine_info, "ICON_NAME"), "computer")
    }

    /// What the machine is: as set, or else by the firmware.
    pub fn chassis(&self, machine_info: Option<&str>, chassis_type: Option<&str>) -> (r: String)
        ensures
            chassis_told(machine_info, chassis_type, r@),
    {
        match read_field(machine_info, "CHASSIS") {
            Some(t) => t,
            None => or_text(detect_chassis(chassis_type), ""),
        }
    }

    /// The name of the system.
    pub fn os_pretty_name(&self, etc: Option<&str>, usr: Option<&str>) -> (r: String)
        ensures
            system_told(etc, usr, r@),
    {
        or_text(read_os_release_field(etc, usr, "PRETTY_NAME"), "Linux")
    }
}

/// What the file with the name of the machine holds.
pub open spec fn hostname_file(
    hostname: Seq<char>,
    r: Seq<char>,
) -> bool {
    r == hostname + "\n"@
}

/// Where the name comes from.
pub open spec fn source_told(
    file_exists: bool,
    r: Seq<char>,
) -> bool {
    r == if file_exists {
        "static"@
    } else {
        "default"@
    }
}

/// The icon of the machine.
pub open spec fn icon_told(
    machine_info: Option<&str>,
    r: Seq<char>,
) -> bool {
    r == match file_field(machine_info, "ICON_NAME"@) {
        Some(t) => t,
        None => "computer"@,
    }
}

/// What the machine is.
pub open spec fn chassis_told(
    machine_info: Option<&str>,
    chassis_type: Option<&str>,
    r: Seq<char>,
) -> bool {
    r == match file_field(machine_info, "CHASSIS"@) {
        Some(t) => t,
        None => match case_of(chassis_type) {
            Some(t) => t,
            None => ""@,
        },
    }
}

/// The name of the system.
pub open spec fn system_told(
    etc: Option<&str>,
    usr: Option<&str>,
    r: Seq<char>,
) -> bool {
    r == match file_field(
        match etc {
            Some(c) => Some(c),
            None => usr,
        },
        "PRETTY_NAME"@,
    ) {
        Some(t) => t,
        None => "Linux"@,
    }
}

/// A name of the machine that is set is the one that is told, and one that has
/// no file is `localhost`.
pub proof fn set_hostname_is_told(hostname: Seq<char>, file: Seq<char>)
    requires
        hostname_file(hostname, file),
        hostname.len() > 0 ==> !Class::White.has(hostname[0]) && !Class::White.has(hostname.last()),
    ensures
        static_name(Some(file)) == hostname,
        static_name(None) == "localhost"@,
{
    written_hostname_is_read_back(hostname);
}

/// The number of the case tells what the machine is.
pub proof fn case_tells_the_machine(n: nat)
    ensures
        case_named(n) == Some("desktop"@) <==> n == 3 || n == 4 || n == 5 || n == 6 || n == 7 || n
            == 15 || n == 16,
        case_named(n) == Some("laptop"@) <==> n == 8 || n == 9 || n == 10 || n == 14,
        case_named(n) == Some("handset"@) <==> n == 11,
        case_named(n) == Some("server"@) <==> n == 17 || n == 23 || n == 28 || n == 29,
        case_named(n) == Some("tablet"@) <==> n == 30 || n == 31 || n == 32,
        n < 3 || n == 12 || n == 13 || n > 32 ==> case_named(n) is None,
{
    reveal_strlit("desktop");
    reveal_strlit("laptop");
    reveal_strlit("handset");
    reveal_strlit("server");
    reveal_strlit("tablet");
    assert("desktop"@[0] == 'd' && "laptop"@[0] == 'l' && "handset"@[0] == 'h' && "server"@[0]
        == 's' && "tablet"@[0] == 't');
}

/// What is set about the machine is told; what is not set is told by the
/// firmware, or as usual.
pub proof fn what_is_set_comes_first(
    info: Option<&str>,
    case: Option<&str>,
    etc: Option<&str>,
    usr: Option<&str>,
    key: Seq<char>,
    icon: Seq<char>,
    chassis: Seq<char>,
    system: Seq<char>,
    field: Option<Seq<char>>,
    there: bool,
    source: Seq<char>,
)
    requires
        icon_told(info, icon),
        chassis_told(info, case, chassis),
        system_told(etc, usr, system),
        release_field_read(etc, usr, key, field),
        source_told(there, source),
    ensures
        file_field(info, "ICON_NAME"@) matches Some(t) ==> icon == t,
        file_field(info, "ICON_NAME"@) is None ==> icon == "computer"@,
        file_field(info, "CHASSIS"@) matches Some(t) ==> chassis == t,
        file_field(info, "CHASSIS"@) is None && case_of(case) is Some ==> chassis == case_of(
            case,
        )->0,
        file_field(info, "CHASSIS"@) is None && case_of(case) is None ==> chassis.len() == 0,
        etc is Some ==> field == file_field(etc, key),
        etc is None ==> field == file_field(usr, key),
        etc is Some && file_field(etc, "PRETTY_NAME"@) is Some ==> system == file_field(
            etc,
            "PRETTY_NAME"@,
        )->0,
        etc is None && usr is None ==> system == "Linux"@,
        there ==> source == "static"@,
        !there ==> source == "default"@,
{
    reveal_strlit("");
}

/// The firmware tells what its file holds, without the white space around it;
/// and its case is told by the number in its file.
pub proof fn firmware_is_read(content: &str, n: nat, r: Option<Seq<char>>)
    requires
        firmware_read(Some(content), r),
        n <= u32::MAX,
    ensures
        r is Some <==> stripped(content@).len() > 0,
        r is Some ==> r->0 == stripped(content@),
        content@ == dec(n).push('\n') ==> case_of(Some(content)) == case_named(n),
{
    let e = Seq::<char>::empty();
    let nl = seq!['\n'];
    written_number_is_read_back(n, u32::MAX as nat);
    white_space_around_is_taken_off(e, dec(n), nl);
    assert(e + dec(n) + nl =~= dec(n).push('\n'));
}

} // verus!
