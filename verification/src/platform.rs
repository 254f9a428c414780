//! What the platform decides: the backend of the window system, whether the tab bar
//! is drawn by the program, and the units of webview bounds.
use vstd::prelude::*;

use crate::text;
use crate::text::{ascii_lowered, opt_str, split, texts, trimmed};

verus! {

/// A backend of GDK that the program tells apart.
#[derive(Clone, Copy, Debug, PartialEq, Eq, Structural)]
pub enum Backend {
    X11,
    Wayland,
}

/// The backend that one entry of `GDK_BACKEND` names.
pub open spec fn named_backend(entry: Seq<char>) -> Option<Backend> {
    let name = ascii_lowered(trimmed(entry));
    if name == "x11"@ {
        Some(Backend::X11)
    } else if name == "wayland"@ {
        Some(Backend::Wayland)
    } else {
        None
    }
}

/// The first backend that a list of entries names.
pub open spec fn first_backend(entries: Seq<Seq<char>>) -> Option<Backend>
    decreases entries.len(),
{
    if entries.len() == 0 {
        None
    } else {
        match named_backend(entries.first()) {
            Some(b) => Some(b),
            None => first_backend(entries.drop_first()),
        }
    }
}

/// Whether GDK runs on X11: `GDK_BACKEND` decides by its first known entry; where it
/// names none, the absence of a Wayland display does.
pub open spec fn runs_on_x11(gdk_backend: Option<Seq<char>>, wayland_display: bool) -> bool {
    let chosen = match gdk_backend {
        Some(list) => first_backend(split(list, ',')),
        None => None,
    };
    match chosen {
        Some(b) => b == Backend::X11,
        None => !wayland_display,
    }
}

/// Whether GDK runs its X11 backend, given `GDK_BACKEND` and whether a Wayland display
/// is set. `GDK_BACKEND` is an ordered list; its first entry that names a known backend
/// wins.
pub fn x11_from_env(gdk_backend: Option<&str>, wayland_display: bool) -> (r: bool)
    ensures
        r == runs_on_x11(opt_str(gdk_backend), wayland_display),
{
    if let Some(list) = gdk_backend {
        let entries = text::split_at_each(list, ',');
        let ghost model = split(list@, ',');
        let mut i: usize = 0;
        assert(model.skip(0) =~= model);
        while i < entries.len()
            invariant
                i <= entries@.len(),
                model == split(list@, ','),
                texts(entries@) == model,
                gdk_backend == Some(list),
                first_backend(model) == first_backend(model.skip(i as int)),
            decreases entries@.len() - i,
        {
            let name = text::to_ascii_lower(text::trim(entries[i].as_str()).as_str());
            assert(model.skip(i as int).first() == entries@[i as int]@);
            if text::same(name.as_str(), "x11") {
                return true;
            }
            if text::same(name.as_str(), "wayland") {
                proof {
                    reveal_strlit("x11");
                    reveal_strlit("wayland");
                }
                return false;
            }
            assert(model.skip(i as int).drop_first() =~= model.skip(i + 1));
            i = i + 1;
        }
    }
    !wayland_display
}

/// Whether tabs are kept in a tab bar that the program draws: everywhere but on macOS,
/// and there too where it is asked for.
pub fn enabled(macos: bool, force_strip: bool) -> (r: bool)
    ensures
        r == (!macos || force_strip),
{
    !macos || force_strip
}

/// The units in which the bounds of a webview are given.
#[derive(Clone, Copy, Debug, PartialEq, Eq, Structural)]
pub enum Units {
    Logical,
    Physical,
}

/// The units in which the bounds of a webview are given: pixels of the device on Linux
/// with X11, where the scale of the X screen cannot be trusted, and logical ones
/// elsewhere.
pub fn bounds_units(linux: bool, x11: bool) -> (r: Units)
    ensures
        r == if linux && x11 {
            Units::Physical
        } else {
            Units::Logical
        },
{
    if linux && x11 {
        Units::Physical
    } else {
        Units::Logical
    }
}

/// The environment variables that keep WebKit off the fast rendering paths.
pub open spec fn safe_variables() -> Seq<Seq<char>> {
    seq!["WEBKIT_DISABLE_DMABUF_RENDERER"@, "WEBKIT_DISABLE_COMPOSITING_MODE"@]
}

/// The variables to set to `1` before the first webview is made: those of safe rendering
/// that the user has not set, where `HERMES_DESKTOP_SAFE_RENDER` is `1`.
pub fn safe_render(flag: Option<&str>, dmabuf_set: bool, compositing_set: bool) -> (r: Vec<String>)
    ensures
        texts(r@) == if opt_str(flag) == Some("1"@) {
            (if dmabuf_set {
                Seq::empty()
            } else {
                seq![safe_variables()[0]]
            }) + (if compositing_set {
                Seq::empty()
            } else {
                seq![safe_variables()[1]]
            })
        } else {
            Seq::empty()
        },
{
    let mut r: Vec<String> = Vec::new();
    if let Some(v) = flag {
        if text::same(v, "1") {
            if !dmabuf_set {
                r.push("WEBKIT_DISABLE_DMABUF_RENDERER".to_owned());
            }
            if !compositing_set {
                r.push("WEBKIT_DISABLE_COMPOSITING_MODE".to_owned());
            }
        }
    }
    r
}

/// The delay in seconds that a test variable asks for; none where it holds no number.
pub fn hook_delay(value: Option<&str>) -> (r: Option<u64>)
    ensures
        r == match opt_str(value) {
            Some(v) => text::number(v),
            None => None,
        },
{
    match value {
        Some(v) => text::parse_number(v),
        None => None,
    }
}

} // verus!
