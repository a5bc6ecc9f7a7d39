//! Screens and microphones of the host, as ffmpeg lists them.

use crate::input::{display_for_ffmpeg_screen, no_screen, screens, DisplayInfo, Screen};
use crate::pattern::{all_groups, all_matches, group, group_text, groups, matches_of};
use crate::text::{
    append, chars_of, concat2, contains, decimal, decimal_text, find_from, first_at, has_part,
    lines, lines_of, lossy, lossy_text, lower, lowercase, number_in, opt_text, parse_number, same,
    slice_text, texts, trim, trimmed,
};
use vstd::prelude::*;

verus! {

/// A screen that can be captured.
#[derive(Debug, PartialEq)]
pub struct Device {
    pub id: String,
    pub name: String,
    pub x: i32,
    pub y: i32,
    pub width: u32,
    pub height: u32,
    pub main: bool,
}

impl View for Device {
    type V = Screen;

    open spec fn view(&self) -> Screen {
        Screen {
            id: self.id@,
            name: self.name@,
            x: self.x,
            y: self.y,
            width: self.width,
            height: self.height,
            main: self.main,
        }
    }
}

impl From<DisplayInfo> for Device {
    fn from(d: DisplayInfo) -> (r: Self) {
        Device {
            id: d.id,
            name: d.name,
            x: d.x,
            y: d.y,
            width: d.width,
            height: d.height,
            main: d.main,
        }
    }
}

impl vstd::std_specs::convert::FromSpecImpl<DisplayInfo> for Device {
    open spec fn obeys_from_spec() -> bool {
        true
    }

    open spec fn from_spec(d: DisplayInfo) -> Self {
        Device {
            id: d.id,
            name: d.name,
            x: d.x,
            y: d.y,
            width: d.width,
            height: d.height,
            main: d.main,
        }
    }
}

impl Device {
    pub fn as_info(&self) -> (d: DisplayInfo)
        ensures
            d@ == self@,
    {
        DisplayInfo {
            id: self.id.clone(),
            name: self.name.clone(),
            x: self.x,
            y: self.y,
            width: self.width,
            height: self.height,
            main: self.main,
        }
    }

    pub fn copy(&self) -> (d: Device)
        ensures
            d@ == self@,
    {
        Device::from(self.as_info())
    }
}

pub open spec fn devices(v: Seq<Device>) -> Seq<Screen> {
    Seq::new(v.len(), |i: int| v[i]@)
}

/// The screen at that place with the bounds of the display there, if there is one.
pub open spec fn paired(dev: Seq<char>, at: int, label: Seq<char>, cg: Seq<Screen>) -> Screen {
    let b = if 0 <= at < cg.len() {
        cg[at]
    } else {
        Screen { main: at == 0, ..no_screen() }
    };
    Screen {
        id: dev + ":"@,
        name: if b.width > 0 {
            label + " — "@ + decimal(b.width as nat) + "×"@ + decimal(b.height as nat)
        } else {
            label
        },
        ..b
    }
}

/// Pair an AVFoundation `Capture screen N` entry with CG bounds at the same index.
pub fn device_from_ffmpeg_screen(
    dev_id: &str,
    screen_idx: usize,
    label: &str,
    cg: &Vec<DisplayInfo>,
) -> (d: Device)
    ensures
        d@ == paired(dev_id@, screen_idx as int, label@, screens(cg@)),
{
    let id = concat2(dev_id, ":");
    match display_for_ffmpeg_screen(screen_idx, cg) {
        Some(b) => {
            let mut name = label.to_owned();
            if b.width > 0 {
                append(&mut name, " — ");
                append(&mut name, decimal_text(b.width as u64).as_str());
                append(&mut name, "×");
                append(&mut name, decimal_text(b.height as u64).as_str());
            }
            Device {
                id,
                name,
                x: b.x,
                y: b.y,
                width: b.width,
                height: b.height,
                main: b.main,
            }
        },
        None => Device {
            id,
            name: label.to_owned(),
            x: 0,
            y: 0,
            width: 0,
            height: 0,
            main: screen_idx == 0,
        },
    }
}

pub const SCREEN_LINE: &'static str = "\\[(\\d+)\\] (Capture screen (\\d+))";

pub const AUDIO_LINE: &'static str = "\\[(\\d+)\\] (.+)";

/// A screen that a match names: the device's number, the screen's, the label.
pub open spec fn screen_in(m: Seq<Option<Seq<char>>>) -> Option<(Seq<char>, int, Seq<char>)> {
    match (group(m, 1), group(m, 2), group(m, 3)) {
        (Some(dev), Some(label), Some(idx)) => match number_in(idx, usize::MAX as u64) {
            Some(n) => Some((dev, n as int, label)),
            None => None,
        },
        _ => None,
    }
}

pub open spec fn screens_in(ms: Seq<Seq<Option<Seq<char>>>>) -> Seq<(Seq<char>, int, Seq<char>)>
    decreases ms.len(),
{
    if ms.len() == 0 {
        Seq::empty()
    } else {
        let before = screens_in(ms.drop_last());
        match screen_in(ms.last()) {
            Some(s) => before.push(s),
            None => before,
        }
    }
}

pub open spec fn entries(v: Seq<(String, usize, String)>) -> Seq<(Seq<char>, int, Seq<char>)> {
    Seq::new(v.len(), |i: int| (v[i].0@, v[i].1 as int, v[i].2@))
}

/// The screens that the matches of [`SCREEN_LINE`] name, in their order.
pub fn named_screens(ms: &Vec<Vec<Option<String>>>) -> (out: Vec<(String, usize, String)>)
    ensures
        entries(out@) == screens_in(all_groups(ms@)),
{
    let mut out: Vec<(String, usize, String)> = Vec::new();
    let ghost all = all_groups(ms@);
    let mut i: usize = 0;
    assert(entries(out@) =~= screens_in(all.take(0)));
    while i < ms.len()
        invariant
            i <= ms@.len(),
            all == all_groups(ms@),
            entries(out@) == screens_in(all.take(i as int)),
        decreases ms@.len() - i,
    {
        let ghost before = entries(out@);
        proof {
            assert(all.take(i + 1).drop_last() =~= all.take(i as int));
            assert(all.take(i + 1).last() == groups(ms@[i as int]@));
        }
        match (group_text(&ms[i], 1), group_text(&ms[i], 2), group_text(&ms[i], 3)) {
            (Some(dev), Some(label), Some(idx)) => {
                match parse_number(idx.as_str(), usize::MAX as u64) {
                    Some(n) => {
                        out.push((dev, n as usize, label));
                        assert(entries(out@) =~= before.push((dev@, n as int, label@)));
                    },
                    None => {},
                }
            },
            _ => {},
        }
        i += 1;
    }
    assert(all.take(all.len() as int) =~= all);
    out
}

fn ffmpeg_avfoundation_screens(stderr: &str) -> (out: Vec<(String, usize, String)>)
    ensures
        entries(out@) == screens_in(all_matches(SCREEN_LINE@, stderr@)),
{
    named_screens(&matches_of(SCREEN_LINE, stderr))
}

/// The capture targets. On macOS the screens that ffmpeg lists with the bounds
/// of the displays, or the displays themselves where it lists none; elsewhere
/// the desktop.
pub open spec fn targets(
    sysname: Seq<char>,
    cg: Seq<Screen>,
    listed: Seq<(Seq<char>, int, Seq<char>)>,
) -> Seq<Screen> {
    if sysname == "Darwin"@ {
        if listed.len() == 0 {
            cg
        } else {
            Seq::new(listed.len(), |i: int| paired(listed[i].0, listed[i].1, listed[i].2, cg))
        }
    } else {
        let b = if cg.len() > 0 {
            cg[0]
        } else {
            no_screen()
        };
        let desktop = Screen { id: "desktop"@, name: "Desktop"@, main: true, ..b };
        if sysname == "Linux"@ {
            seq![desktop, Screen { id: ":0.0"@, name: "X11 :0.0"@, ..no_screen() }]
        } else {
            seq![desktop]
        }
    }
}

fn copies(cg: &Vec<DisplayInfo>) -> (out: Vec<Device>)
    ensures
        devices(out@) == screens(cg@),
{
    let mut out: Vec<Device> = Vec::new();
    let mut i: usize = 0;
    while i < cg.len()
        invariant
            i <= cg@.len(),
            devices(out@) == screens(cg@).take(i as int),
        decreases cg@.len() - i,
    {
        let ghost before = devices(out@);
        let d = Device {
            id: cg[i].id.clone(),
            name: cg[i].name.clone(),
            x: cg[i].x,
            y: cg[i].y,
            width: cg[i].width,
            height: cg[i].height,
            main: cg[i].main,
        };
        out.push(d);
        assert(devices(out@) =~= before.push(d@));
        assert(screens(cg@).take(i + 1) =~= before.push(d@));
        i += 1;
    }
    assert(screens(cg@).take(cg@.len() as int) =~= screens(cg@));
    out
}

/// The capture targets from the displays of the host and what ffmpeg listed.
pub fn capture_targets(
    sysname: &str,
    cg: &Vec<DisplayInfo>,
    listed: &Vec<(String, usize, String)>,
) -> (out: Vec<Device>)
    ensures
        devices(out@) == targets(sysname@, screens(cg@), entries(listed@)),
{
    let ghost want = targets(sysname@, screens(cg@), entries(listed@));
    if !same(sysname, "Darwin") {
        let mut out: Vec<Device> = Vec::new();
        let mut d = Device::from(DisplayInfo::default());
        d.id = "desktop".to_owned();
        d.name = "Desktop".to_owned();
        d.main = true;
        if cg.len() > 0 {
            d.x = cg[0].x;
            d.y = cg[0].y;
            d.width = cg[0].width;
            d.height = cg[0].height;
        }
        out.push(d);
        if same(sysname, "Linux") {
            let mut x = Device::from(DisplayInfo::default());
            x.id = ":0.0".to_owned();
            x.name = "X11 :0.0".to_owned();
            out.push(x);
        }
        assert(devices(out@) =~= want);
        return out;
    }
    if listed.len() == 0 {
        return copies(cg);
    }
    let mut out: Vec<Device> = Vec::new();
    let mut i: usize = 0;
    while i < listed.len()
        invariant
            i <= listed@.len() == want.len(),
            sysname@ == "Darwin"@,
            listed@.len() > 0,
            want == targets(sysname@, screens(cg@), entries(listed@)),
            devices(out@) == want.take(i as int),
        decreases listed@.len() - i,
    {
        let ghost before = devices(out@);
        let d = device_from_ffmpeg_screen(
            listed[i].0.as_str(),
            listed[i].1,
            listed[i].2.as_str(),
            cg,
        );
        assert(entries(listed@)[i as int] == (
            listed@[i as int].0@,
            listed@[i as int].1 as int,
            listed@[i as int].2@,
        ));
        out.push(d);
        assert(devices(out@) =~= before.push(d@));
        assert(want.take(i + 1) =~= before.push(d@));
        i += 1;
    }
    assert(want.take(want.len() as int) =~= want);
    out
}

/// The capture targets of a host. `listing` is what ffmpeg printed when it was
/// asked for its devices, empty where it could not be run.
pub fn enumerate_devices(sysname: &str, cg: &Vec<DisplayInfo>, listing: &[u8]) -> (out: Vec<Device>)
    ensures
        devices(out@) == targets(
            sysname@,
            screens(cg@),
            if sysname@ == "Darwin"@ {
                screens_in(all_matches(SCREEN_LINE@, lossy(listing@)))
            } else {
                Seq::empty()
            },
        ),
{
    let listed = if same(sysname, "Darwin") {
        ffmpeg_avfoundation_screens(lossy_text(listing).as_str())
    } else {
        Vec::new()
    };
    assert(sysname@ != "Darwin"@ ==> entries(listed@) =~= Seq::empty());
    capture_targets(sysname, cg, &listed)
}

/// There is always a capture target off macOS.
pub proof fn there_is_a_target(
    sysname: Seq<char>,
    cg: Seq<Screen>,
    listed: Seq<(Seq<char>, int, Seq<char>)>,
)
    requires
        sysname != "Darwin"@ || cg.len() > 0 || listed.len() > 0,
    ensures
        targets(sysname, cg, listed).len() > 0,
{
}

/// The input that is captured where none is set.
pub open spec fn usual_input(
    sysname: Seq<char>,
    found: Seq<Screen>,
    display: Option<Seq<char>>,
) -> Seq<char> {
    if sysname == "Darwin"@ {
        if found.len() > 0 {
            found[0].id
        } else {
            "3:"@
        }
    } else if sysname == "Windows"@ {
        "desktop"@
    } else {
        match display {
            Some(d) => d,
            None => ":0.0"@,
        }
    }
}

/// `display` is the X display that the environment names.
pub fn default_input(sysname: &str, found: &Vec<Device>, display: Option<String>) -> (s: String)
    ensures
        s@ == usual_input(sysname@, devices(found@), opt_text(display)),
{
    if same(sysname, "Darwin") {
        if found.len() > 0 {
            assert(devices(found@)[0] == found@[0]@);
            found[0].id.clone()
        } else {
            "3:".to_owned()
        }
    } else if same(sysname, "Windows") {
        "desktop".to_owned()
    } else {
        match display {
            Some(d) => d,
            None => ":0.0".to_owned(),
        }
    }
}

pub fn resolve_input(raw: &str, sysname: &str, found: &Vec<Device>, display: Option<String>) -> (s:
    String)
    ensures
        s@ == if raw@.len() > 0 {
            raw@
        } else {
            usual_input(sysname@, devices(found@), opt_text(display))
        },
{
    if chars_of(raw).len() > 0 {
        return raw.to_owned();
    }
    default_input(sysname, found, display)
}

/// A microphone, or a device that loops the host's own sound back.
#[derive(Debug, PartialEq)]
pub struct AudioDevice {
    pub id: String,
    pub name: String,
}

pub open spec fn audio_names(v: Seq<AudioDevice>) -> Seq<(Seq<char>, Seq<char>)> {
    Seq::new(v.len(), |i: int| (v[i].id@, v[i].name@))
}

/// The device that the first match in a line names.
pub open spec fn audio_in(ms: Seq<Seq<Option<Seq<char>>>>) -> Option<(Seq<char>, Seq<char>)> {
    if ms.len() == 0 {
        None
    } else {
        match (group(ms[0], 1), group(ms[0], 2)) {
            (Some(id), Some(name)) => if trimmed(name).len() == 0 || has_part(
                lower(trimmed(name)),
                "audio devices:"@,
            ) {
                None
            } else {
                Some((id, trimmed(name)))
            },
            _ => None,
        }
    }
}

/// The audio device of a line, from the matches of [`AUDIO_LINE`] in it.
pub fn audio_device(ms: &Vec<Vec<Option<String>>>) -> (r: Option<AudioDevice>)
    ensures
        match r {
            Some(d) => audio_in(all_groups(ms@)) == Some((d.id@, d.name@)),
            None => audio_in(all_groups(ms@)) is None,
        },
{
    if ms.len() == 0 {
        return None;
    }
    assert(all_groups(ms@)[0] == groups(ms@[0]@));
    match (group_text(&ms[0], 1), group_text(&ms[0], 2)) {
        (Some(id), Some(raw)) => {
            let name = trim(raw.as_str());
            if chars_of(name.as_str()).len() == 0 || contains(
                lowercase(name.as_str()).as_str(),
                "audio devices:",
            ) {
                None
            } else {
                Some(AudioDevice { id, name })
            }
        },
        _ => None,
    }
}

pub open spec fn audio_lines(ls: Seq<Seq<char>>) -> Seq<(Seq<char>, Seq<char>)>
    decreases ls.len(),
{
    if ls.len() == 0 {
        Seq::empty()
    } else {
        let before = audio_lines(ls.drop_last());
        match audio_in(all_matches(AUDIO_LINE@, ls.last())) {
            Some(d) => before.push(d),
            None => before,
        }
    }
}

/// The audio devices of a listing: those after the heading of the audio section.
pub open spec fn audio_listed(stderr: Seq<char>) -> Seq<(Seq<char>, Seq<char>)> {
    match first_at(lower(stderr), "audio devices:"@, 0) {
        Some(i) => audio_lines(lines_of(stderr.skip(i))),
        None => Seq::empty(),
    }
}

/// Parse ffmpeg `-list_devices` audio section (mics, BlackHole, Loopback).
pub fn parse_avfoundation_audio(stderr: &str) -> (out: Vec<AudioDevice>)
    ensures
        audio_names(out@) == audio_listed(stderr@),
{
    let low = chars_of(lowercase(stderr).as_str());
    let heading = chars_of("audio devices:");
    let mut out: Vec<AudioDevice> = Vec::new();
    assert(audio_names(out@) =~= Seq::empty());
    match find_from(low.as_slice(), heading.as_slice(), 0) {
        None => out,
        Some(idx) => {
            let v = chars_of(stderr);
            let rest = slice_text(&v, idx, v.len());
            assert(rest@ =~= stderr@.skip(idx as int));
            let ls = lines(rest.as_str());
            let ghost all = texts(ls@);
            let mut i: usize = 0;
            assert(audio_names(out@) =~= audio_lines(all.take(0)));
            while i < ls.len()
                invariant
                    i <= ls@.len(),
                    all == texts(ls@),
                    audio_names(out@) == audio_lines(all.take(i as int)),
                decreases ls@.len() - i,
            {
                let ghost before = audio_names(out@);
                assert(all.take(i + 1).drop_last() =~= all.take(i as int));
                match audio_device(&matches_of(AUDIO_LINE, ls[i].as_str())) {
                    Some(d) => {
                        out.push(d);
                        assert(audio_names(out@) =~= before.push((d.id@, d.name@)));
                    },
                    None => {},
                }
                i += 1;
            }
            assert(all.take(all.len() as int) =~= all);
            out
        },
    }
}

/// The audio devices of a host; only macOS lists any.
pub fn enumerate_audio_devices(sysname: &str, listing: &[u8]) -> (out: Vec<AudioDevice>)
    ensures
        audio_names(out@) == if sysname@ == "Darwin"@ {
            audio_listed(lossy(listing@))
        } else {
            Seq::empty()
        },
{
    if !same(sysname, "Darwin") {
        let out: Vec<AudioDevice> = Vec::new();
        assert(audio_names(out@) =~= Seq::empty());
        return out;
    }
    parse_avfoundation_audio(lossy_text(listing).as_str())
}

/// A screen that ffmpeg lists goes by ffmpeg's number and has the bounds of the
/// display of the same place; its name tells the size where it is known.
pub proof fn screens_have_their_bounds(dev: Seq<char>, at: int, label: Seq<char>, cg: Seq<Screen>)
    ensures
        ({
            let s = paired(dev, at, label, cg);
            &&& s.id == dev + ":"@
            &&& 0 <= at < cg.len() ==> (s.x, s.y, s.width, s.height, s.main) == (
                cg[at].x,
                cg[at].y,
                cg[at].width,
                cg[at].height,
                cg[at].main,
            )
            &&& at >= cg.len() ==> s.width == 0 && s.height == 0 && s.name == label && s.main == (at
                == 0)
            &&& 0 <= at < cg.len() && cg[at].width > 0 ==> s.name == label + " — "@ + decimal(
                cg[at].width as nat,
            ) + "×"@ + decimal(cg[at].height as nat)
            &&& 0 <= at < cg.len() && cg[at].width == 0 ==> s.name == label
        }),
{
}

/// A line about a screen gives the device, the screen's number and its label.
pub proof fn screen_lines_are_read(
    ms: Seq<Seq<Option<Seq<char>>>>,
    m: Seq<Option<Seq<char>>>,
    dev: Seq<char>,
    label: Seq<char>,
    n: u32,
)
    requires
        m.len() == 4,
        m[1] == Some(dev),
        m[2] == Some(label),
        m[3] == Some(decimal(n as nat)),
    ensures
        screen_in(m) == Some((dev, n as int, label)),
        screens_in(ms.push(m)) == screens_in(ms).push((dev, n as int, label)),
        screens_in(Seq::empty()) == Seq::<(Seq<char>, int, Seq<char>)>::empty(),
{
    crate::text::decimal_reads_back(n as nat);
    assert(crate::text::is_digit(decimal(n as nat)[0]));
    assert(ms.push(m).drop_last() =~= ms);
}

/// What can be captured: on macOS every screen that ffmpeg lists, or the
/// displays where it lists none; elsewhere the desktop, and on Linux X11 too.
pub proof fn targets_by_system(
    sysname: Seq<char>,
    cg: Seq<Screen>,
    listed: Seq<(Seq<char>, int, Seq<char>)>,
)
    ensures
        ({
            let t = targets(sysname, cg, listed);
            &&& sysname == "Darwin"@ && listed.len() == 0 ==> t == cg
            &&& sysname == "Darwin"@ && listed.len() > 0 ==> t.len() == listed.len() && forall|i: int|
                0 <= i < t.len() ==> (#[trigger] t[i]).id == listed[i].0 + ":"@
            &&& sysname == "Linux"@ ==> t.len() == 2 && t[0].id == "desktop"@ && t[0].main && t[1].id
                == ":0.0"@ && t[1].name == "X11 :0.0"@
            &&& sysname == "Windows"@ ==> t.len() == 1 && t[0].id == "desktop"@ && t[0].name
                == "Desktop"@ && t[0].main
            &&& sysname != "Darwin"@ && cg.len() > 0 ==> (t[0].x, t[0].y, t[0].width, t[0].height)
                == (cg[0].x, cg[0].y, cg[0].width, cg[0].height)
        }),
{
    reveal_strlit("Darwin");
    reveal_strlit("Linux");
    reveal_strlit("Windows");
    assert("Darwin"@.len() == 6 && "Linux"@.len() == 5 && "Windows"@.len() == 7);
}

/// Where no input is set the first screen is taken, or what the system has.
pub proof fn usual_inputs(sysname: Seq<char>, found: Seq<Screen>, display: Option<Seq<char>>)
    ensures
        sysname == "Darwin"@ && found.len() > 0 ==> usual_input(sysname, found, display)
            == found[0].id,
        sysname == "Darwin"@ && found.len() == 0 ==> usual_input(sysname, found, display) == "3:"@,
        sysname == "Windows"@ ==> usual_input(sysname, found, display) == "desktop"@,
        sysname == "Linux"@ ==> usual_input(sysname, found, display) == match display {
            Some(d) => d,
            None => ":0.0"@,
        },
{
    reveal_strlit("Darwin");
    reveal_strlit("Linux");
    reveal_strlit("Windows");
    assert("Darwin"@.len() == 6 && "Linux"@.len() == 5 && "Windows"@.len() == 7);
}

/// A line about a microphone gives its number and its name without white space
/// around it; the heading is no microphone.
pub proof fn microphone_lines_are_read(
    ms: Seq<Seq<Option<Seq<char>>>>,
    id: Seq<char>,
    name: Seq<char>,
)
    requires
        ms.len() > 0,
        ms[0].len() == 3,
        ms[0][1] == Some(id),
        ms[0][2] == Some(name),
    ensures
        trimmed(name).len() > 0 && !has_part(lower(trimmed(name)), "audio devices:"@) ==> audio_in(
            ms,
        ) == Some((id, trimmed(name))),
        trimmed(name).len() == 0 ==> audio_in(ms) is None,
        has_part(lower(trimmed(name)), "audio devices:"@) ==> audio_in(ms) is None,
        audio_in(Seq::empty()) is None,
{
}

/// Microphones are listed under their heading, in the order of their lines.
pub proof fn microphones_are_listed(stderr: Seq<char>, ls: Seq<Seq<char>>, l: Seq<char>)
    ensures
        !has_part(lower(stderr), "audio devices:"@) ==> audio_listed(stderr).len() == 0,
        audio_in(all_matches(AUDIO_LINE@, l)) matches Some(d) ==> audio_lines(ls.push(l))
            == audio_lines(ls).push(d),
        audio_in(all_matches(AUDIO_LINE@, l)) is None ==> audio_lines(ls.push(l)) == audio_lines(ls),
{
    assert(ls.push(l).drop_last() =~= ls);
}

/// The lines of ffmpeg's list that tell of screens and of other devices.
pub proof fn lines_that_tell_of_devices()
    ensures
        SCREEN_LINE@ == "\\[(\\d+)\\] (Capture screen (\\d+))"@,
        AUDIO_LINE@ == "\\[(\\d+)\\] (.+)"@,
{
}

} // verus!
