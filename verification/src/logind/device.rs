//! The devices that sessions use.

use crate::fspath::{join_path, path_joined};
use crate::text::num::{dec, dec_int, i64_text, u64_text};
use crate::text::scan::{deep, has_prefix, lines, lines_of, starts_with};
use crate::text::{cat, cat3, cat4, chars_of, same, string_of, texts};
use vstd::prelude::*;
use vstd::slice::slice_subrange;

verus! {

/// The major number of graphics devices.
pub const DRM_MAJOR: u32 = 226;

/// The mode of a device that was handed over.
pub const DEVICE_MODE: u32 = 0o660;

/// Why a device could not be used.
#[derive(Debug)]
pub enum DeviceError {
    Open { path: String, source: String },
    DrmIoctl { fd: i32, source: String },
}

impl DeviceError {
    /// The error in words.
    pub open spec fn text(self) -> Seq<char> {
        match self {
            DeviceError::Open { path, source } => "failed to open device "@ + path@ + ": "@
                + source@,
            DeviceError::DrmIoctl { fd, source } => "DRM ioctl failed on fd "@ + dec_int(fd as int)
                + ": "@ + source@,
        }
    }

    /// The error in words.
    pub fn message(&self) -> (r: String)
        ensures
            r@ == self.text(),
    {
        match self {
            DeviceError::Open { path, source } => cat4(
                "failed to open device ",
                path.as_str(),
                ": ",
                source.as_str(),
            ),
            DeviceError::DrmIoctl { fd, source } => {
                let n = i64_text(*fd as i64);
                cat4("DRM ioctl failed on fd ", n.as_str(), ": ", source.as_str())
            },
        }
    }
}

/// Whether a device is a graphics device.
pub fn is_drm_device(major: u32) -> (r: bool)
    ensures
        r == (major == DRM_MAJOR),
{
    major == DRM_MAJOR
}

/// Two numbers with a colon between them.
pub open spec fn numbers(major: u32, minor: u32) -> Seq<char> {
    dec(major as nat) + ":"@ + dec(minor as nat)
}

/// The name of a device by its numbers.
pub fn device_path(major: u32, minor: u32) -> (r: String)
    ensures
        r@ == "/dev/char/"@ + numbers(major, minor),
{
    let a = u64_text(major as u64);
    let b = u64_text(minor as u64);
    let n = cat3(a.as_str(), ":", b.as_str());
    cat("/dev/char/", n.as_str())
}

/// The file that tells the real name of a device.
pub fn uevent_path(major: u32, minor: u32) -> (r: String)
    ensures
        r@ == "/sys/dev/char/"@ + numbers(major, minor) + "/uevent"@,
{
    let a = u64_text(major as u64);
    let b = u64_text(minor as u64);
    let n = cat3(a.as_str(), ":", b.as_str());
    cat3("/sys/dev/char/", n.as_str(), "/uevent")
}

/// The name on the first of the lines that gives one.
pub open spec fn named_device(ls: Seq<Seq<char>>) -> Option<Seq<char>>
    decreases ls.len(),
{
    if ls.len() == 0 {
        None
    } else if has_prefix(ls[0], "DEVNAME="@) {
        Some(ls[0].skip(8))
    } else {
        named_device(ls.drop_first())
    }
}

/// The real name of a device, by the file that tells it.
pub fn resolve_devname(uevent: &str) -> (r: Option<String>)
    ensures
        match named_device(lines_of(uevent@)) {
            Some(n) => r matches Some(p) && p@ == "/dev/"@ + n,
            None => r is None,
        },
{
    let text = chars_of(uevent);
    let key = chars_of("DEVNAME=");
    let ls = lines(&text);
    let ghost all = lines_of(uevent@);
    proof {
        reveal_strlit("DEVNAME=");
        assert(all.skip(0) =~= all);
    }
    let mut i: usize = 0;
    while i < ls.len()
        invariant
            i <= ls.len(),
            key@ == "DEVNAME="@,
            key@.len() == 8,
            all == lines_of(uevent@),
            deep(ls@) == all,
            named_device(all.skip(i as int)) == named_device(all),
        decreases ls.len() - i,
    {
        proof {
            assert(all[i as int] == ls@[i as int]@);
            assert(all.skip(i as int)[0] == all[i as int]);
            assert(all.skip(i as int).drop_first() =~= all.skip(i + 1));
        }
        let line = &ls[i];
        if starts_with(line, &key) {
            let name = string_of(slice_subrange(line.as_slice(), 8, line.len()));
            assert(name@ =~= all[i as int].skip(8));
            return Some(cat("/dev/", name.as_str()));
        }
        i += 1;
    }
    None
}

/// What is opened for a device.
pub open spec fn opened_at(
    major: u32,
    minor: u32,
    is_there: bool,
    uevent: Option<&str>,
    r: Seq<char>,
) -> bool {
    r == match uevent {
        Some(u) if !is_there && named_device(lines_of(u@)) is Some => "/dev/"@ + named_device(
            lines_of(u@),
        )->0,
        _ => "/dev/char/"@ + numbers(major, minor),
    }
}

/// What is opened for a device: the name by its numbers, where it is there or
/// the real name cannot be found, else the real name.
pub fn path_to_open(major: u32, minor: u32, is_there: bool, uevent: Option<&str>) -> (r: String)
    ensures
        opened_at(major, minor, is_there, uevent, r@),
{
    if !is_there {
        if let Some(u) = uevent {
            if let Some(p) = resolve_devname(u) {
                return p;
            }
        }
    }
    device_path(major, minor)
}

/// Whether a session gets the graphics device of that name.
pub open spec fn is_card(name: Seq<char>) -> bool {
    has_prefix(name, "card"@) || has_prefix(name, "renderD"@)
}

/// Whether a session gets the input device of that name.
pub open spec fn is_pointer_or_event(name: Seq<char>) -> bool {
    has_prefix(name, "event"@) || has_prefix(name, "mouse"@) || name == "mice"@
}

/// The directories in which sessions get devices.
#[derive(Debug, Clone, Copy, PartialEq, Eq, Structural)]
pub enum DeviceDir {
    Graphics,
    Input,
    Sound,
}

impl DeviceDir {
    /// Where the directory is.
    pub open spec fn place(self) -> Seq<char> {
        match self {
            DeviceDir::Graphics => "/dev/dri"@,
            DeviceDir::Input => "/dev/input"@,
            DeviceDir::Sound => "/dev/snd"@,
        }
    }

    /// Where the directory is.
    pub fn path(self) -> (r: &'static str)
        ensures
            r@ == self.place(),
    {
        match self {
            DeviceDir::Graphics => "/dev/dri",
            DeviceDir::Input => "/dev/input",
            DeviceDir::Sound => "/dev/snd",
        }
    }

    /// Whether a session gets the device of that name in the directory.
    pub open spec fn gives(self, name: Seq<char>) -> bool {
        match self {
            DeviceDir::Graphics => is_card(name),
            DeviceDir::Input => is_pointer_or_event(name),
            DeviceDir::Sound => true,
        }
    }

    /// Whether a session gets the device of that name in the directory.
    pub fn hands_over(self, name: &str) -> (r: bool)
        ensures
            r == self.gives(name@),
    {
        let n = chars_of(name);
        match self {
            DeviceDir::Graphics => {
                let card = chars_of("card");
                let render = chars_of("renderD");
                starts_with(&n, &card) || starts_with(&n, &render)
            },
            DeviceDir::Input => {
                let event = chars_of("event");
                let mouse = chars_of("mouse");
                let mice = chars_of("mice");
                starts_with(&n, &event) || starts_with(&n, &mouse) || same(&n, &mice)
            },
            DeviceDir::Sound => true,
        }
    }

    /// The paths of those of `names` that a session gets.
    pub open spec fn given(self, names: Seq<Seq<char>>) -> Seq<Seq<char>>
        decreases names.len(),
    {
        if names.len() == 0 {
            Seq::empty()
        } else if self.gives(names.last()) {
            self.given(names.drop_last()).push(path_joined(self.place(), names.last()))
        } else {
            self.given(names.drop_last())
        }
    }
}

/// The devices that go over to the user of a session.
pub open spec fn devices_handed_over(
    dri: Seq<Seq<char>>,
    input: Seq<Seq<char>>,
    snd: Seq<Seq<char>>,
    r: Seq<Seq<char>>,
) -> bool {
    r == DeviceDir::Graphics.given(dri)
                + DeviceDir::Input.given(input) + DeviceDir::Sound.given(
                snd,
            )
}

/// The paths of the devices that go over to the user of a session, from the
/// names in the directories.
pub fn session_devices(dri: &Vec<String>, input: &Vec<String>, snd: &Vec<String>) -> (r: Vec<
    String,
>)
    ensures
        devices_handed_over(texts(dri@), texts(input@), texts(snd@), texts(r@)),
{
    let mut r: Vec<String> = Vec::new();
    assert(texts(r@) =~= Seq::<Seq<char>>::empty());
    push_given(&mut r, DeviceDir::Graphics, dri);
    push_given(&mut r, DeviceDir::Input, input);
    push_given(&mut r, DeviceDir::Sound, snd);
    assert(texts(r@) =~= DeviceDir::Graphics.given(texts(dri@))
        + DeviceDir::Input.given(texts(input@)) + DeviceDir::Sound.given(
        texts(snd@),
    ));
    r
}

fn push_given(r: &mut Vec<String>, dir: DeviceDir, names: &Vec<String>)
    ensures
        texts(final(r)@) == texts(old(r)@) + dir.given(
            texts(names@),
        ),
{
    let ghost o = texts(names@);
    let ghost start = texts(r@);
    let mut i: usize = 0;
    assert(start + dir.given(o.take(0)) =~= start);
    while i < names.len()
        invariant
            i <= names.len(),
            o == texts(names@),
            texts(r@) == start + dir.given(o.take(i as int)),
        decreases names.len() - i,
    {
        let ghost before = texts(r@);
        proof {
            assert(o.take(i + 1).drop_last() =~= o.take(i as int));
            assert(o.take(i + 1).last() == names@[i as int]@);
        }
        if dir.hands_over(names[i].as_str()) {
            let p = join_path(dir.path(), names[i].as_str());
            let ghost pv = p@;
            r.push(p);
            assert(texts(r@) =~= before.push(pv));
            assert(before.push(pv) =~= start + dir.given(o.take(i as int)).push(pv));
        }
        i += 1;
    }
    assert(o.take(o.len() as int) =~= o);
}

/// A device, the user that it goes to, and its mode.
#[derive(Debug)]
pub struct DeviceChange {
    pub path: String,
    pub uid: u32,
    pub mode: u32,
}

/// Whether `v` gives all of `devices` to a user.
pub open spec fn gives_all(v: Seq<DeviceChange>, devices: Seq<Seq<char>>, uid: u32) -> bool {
    &&& v.len() == devices.len()
    &&& forall|i: int|
        0 <= i < v.len() ==> (#[trigger] v[i]).path@ == devices[i] && v[i].uid == uid && v[i].mode
            == DEVICE_MODE
}

fn give_all(devices: &Vec<String>, uid: u32) -> (r: Vec<DeviceChange>)
    ensures
        gives_all(r@, texts(devices@), uid),
{
    let mut r: Vec<DeviceChange> = Vec::new();
    let mut i: usize = 0;
    while i < devices.len()
        invariant
            i <= devices.len(),
            r@.len() == i,
            forall|k: int|
                0 <= k < i ==> (#[trigger] r@[k]).path@ == texts(devices@)[k] && r@[k].uid == uid
                    && r@[k].mode == DEVICE_MODE,
        decreases devices.len() - i,
    {
        r.push(DeviceChange { path: devices[i].clone(), uid, mode: DEVICE_MODE });
        i += 1;
    }
    r
}

/// Gives the devices of a seat to a user. All devices are on every seat.
pub fn apply_session_acl(_seat_id: &str, uid: u32, devices: &Vec<String>) -> (r: Vec<DeviceChange>)
    ensures
        gives_all(r@, texts(devices@), uid),
{
    give_all(devices, uid)
}

/// Gives the devices of a seat back to the system.
pub fn revert_session_acl(_seat_id: &str, devices: &Vec<String>) -> (r: Vec<DeviceChange>)
    ensures
        gives_all(r@, texts(devices@), 0),
{
    give_all(devices, 0)
}

/// A device is opened by its numbers where it is there under them, and else by
/// the name that the kernel tells for it, where it tells one.
pub proof fn device_is_opened_by_numbers_or_name(
    major: u32,
    minor: u32,
    there: bool,
    uevent: Option<&str>,
    r: Seq<char>,
)
    requires
        opened_at(major, minor, there, uevent, r),
    ensures
        ({
            let by_numbers = "/dev/char/"@ + dec(major as nat) + ":"@ + dec(minor as nat);
            &&& there || uevent is None ==> r == by_numbers
            &&& !there && uevent is Some ==> match named_device(lines_of(uevent->0@)) {
                Some(n) => r == "/dev/"@ + n,
                None => r == by_numbers,
            }
        }),
{
    assert("/dev/char/"@ + numbers(major, minor) =~= "/dev/char/"@ + dec(major as nat) + ":"@ + dec(
        minor as nat,
    ));
}

/// The name of a device is told by the first line that starts with `DEVNAME=`.
pub proof fn device_is_named_by_its_line(
    ls: Seq<Seq<char>>,
    name: Seq<char>,
    rest: Seq<Seq<char>>,
)
    requires
        forall|i: int| 0 <= i < ls.len() ==> !has_prefix(#[trigger] ls[i], "DEVNAME="@),
    ensures
        named_device(ls.push("DEVNAME="@ + name) + rest) == Some(name),
        named_device(ls) is None,
    decreases ls.len(),
{
    reveal_strlit("DEVNAME=");
    let all = ls.push("DEVNAME="@ + name) + rest;
    if ls.len() == 0 {
        assert(all[0] == "DEVNAME="@ + name);
        assert(all[0].take(8) =~= "DEVNAME="@);
        assert(all[0].skip(8) =~= name);
    } else {
        let t = ls.drop_first();
        assert forall|i: int| 0 <= i < t.len() implies !has_prefix(
            #[trigger] t[i],
            "DEVNAME="@,
        ) by {
            assert(t[i] == ls[i + 1]);
        }
        device_is_named_by_its_line(t, name, rest);
        assert(all[0] == ls[0]);
        assert(all.drop_first() =~= t.push("DEVNAME="@ + name) + rest);
    }
}

proof fn lemma_given(d: DeviceDir, names: Seq<Seq<char>>, i: int)
    requires
        0 <= i < names.len(),
        d.gives(names[i]),
    ensures
        d.given(names).contains(path_joined(d.place(), names[i])),
    decreases names.len(),
{
    let front = names.drop_last();
    let v = d.given(names);
    let x = path_joined(d.place(), names[i]);
    if i < front.len() {
        assert(front[i] == names[i]);
        lemma_given(d, front, i);
        let w = d.given(front);
        let k = choose|k: int| 0 <= k < w.len() && w[k] == x;
        assert(v[k] == x);
    } else {
        assert(v.last() == x);
    }
}

/// The user of a session in the foreground gets the graphics cards, the input
/// devices and all sound devices.
pub proof fn session_gets_its_devices(
    dri: Seq<Seq<char>>,
    input: Seq<Seq<char>>,
    snd: Seq<Seq<char>>,
    r: Seq<Seq<char>>,
    i: int,
)
    requires
        devices_handed_over(dri, input, snd, r),
    ensures
        0 <= i < dri.len() && (has_prefix(dri[i], "card"@) || has_prefix(dri[i], "renderD"@))
            ==> r.contains(path_joined("/dev/dri"@, dri[i])),
        0 <= i < input.len() && (has_prefix(input[i], "event"@) || has_prefix(input[i], "mouse"@)
            || input[i] == "mice"@) ==> r.contains(path_joined("/dev/input"@, input[i])),
        0 <= i < snd.len() ==> r.contains(path_joined("/dev/snd"@, snd[i])),
{
    let a = DeviceDir::Graphics.given(dri);
    let b = DeviceDir::Input.given(input);
    let c = DeviceDir::Sound.given(snd);
    assert(r == a + b + c);
    if 0 <= i < dri.len() && DeviceDir::Graphics.gives(dri[i]) {
        lemma_given(DeviceDir::Graphics, dri, i);
        let x = path_joined("/dev/dri"@, dri[i]);
        let k = choose|k: int| 0 <= k < a.len() && a[k] == x;
        assert(r[k] == x);
    }
    if 0 <= i < input.len() && DeviceDir::Input.gives(input[i]) {
        lemma_given(DeviceDir::Input, input, i);
        let x = path_joined("/dev/input"@, input[i]);
        let k = choose|k: int| 0 <= k < b.len() && b[k] == x;
        assert(r[a.len() as int + k] == x);
    }
    if 0 <= i < snd.len() {
        lemma_given(DeviceDir::Sound, snd, i);
        let x = path_joined("/dev/snd"@, snd[i]);
        let k = choose|k: int| 0 <= k < c.len() && c[k] == x;
        assert(r[a.len() as int + b.len() as int + k] == x);
    }
}

/// Each device that goes to a user becomes that user's, readable and writable
/// for the user and the group.
pub proof fn devices_become_the_users(
    v: Seq<DeviceChange>,
    devices: Seq<Seq<char>>,
    uid: u32,
    i: int,
)
    requires
        gives_all(v, devices, uid),
        0 <= i < devices.len(),
    ensures
        v.len() == devices.len(),
        v[i].path@ == devices[i],
        v[i].uid == uid,
        v[i].mode == 0o660,
{
}

} // verus!
