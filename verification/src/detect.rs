//! Which layout the session has: the sources of that knowledge, in the order they are asked.

use vstd::prelude::*;

use crate::layout::{CommandOutput, KeyboardLayout, LayoutNames};

verus! {

/// A source that the layout can be read from.
#[derive(Clone, Copy, Debug, PartialEq, Eq, Structural)]
pub enum Probe {
    Hyprland,
    Sway,
    X11,
    Env,
}

/// What to do next in finding the layout.
#[derive(Clone, Debug)]
pub enum DetectStep {
    Ask(Probe),
    Detected(KeyboardLayout),
}

/// What every source reported; a command that could not be run reported `None`, as did a
/// variable that is not set.
#[derive(Clone, Debug)]
pub struct ProbeReports {
    pub hyprctl: Option<CommandOutput>,
    pub swaymsg: Option<CommandOutput>,
    pub display_set: bool,
    pub wayland_display_set: bool,
    pub setxkbmap: Option<CommandOutput>,
    pub xkb_default_layout: Option<String>,
    pub xkb_default_variant: Option<String>,
}

impl Probe {
    /// The source that is asked first.
    pub open spec fn first() -> Probe {
        Probe::Hyprland
    }

    /// The source that is asked after this one has found nothing.
    pub open spec fn next(self) -> Option<Probe> {
        match self {
            Probe::Hyprland => Some(Probe::Sway),
            Probe::Sway => Some(Probe::X11),
            Probe::X11 => Some(Probe::Env),
            Probe::Env => None,
        }
    }

    /// How many sources are left, this one among them.
    pub open spec fn left(self) -> nat {
        match self {
            Probe::Hyprland => 4,
            Probe::Sway => 3,
            Probe::X11 => 2,
            Probe::Env => 1,
        }
    }
}

impl ProbeReports {
    /// What a source finds in its report.
    pub open spec fn found(self, probe: Probe) -> Option<LayoutNames> {
        match probe {
            Probe::Hyprland => KeyboardLayout::hyprland_names(self.hyprctl),
            Probe::Sway => None,
            Probe::X11 => KeyboardLayout::x11_names(
                self.display_set,
                self.wayland_display_set,
                self.setxkbmap,
            ),
            Probe::Env => KeyboardLayout::env_names(
                self.xkb_default_layout,
                self.xkb_default_variant,
            ),
        }
    }

    /// The layout found by asking `probe`, and after it the sources that follow, until one
    /// finds something; the default where none does.
    pub open spec fn detected_from(self, probe: Probe) -> LayoutNames
        decreases probe.left(),
    {
        match self.found(probe) {
            Some(names) => names,
            None => match probe.next() {
                Some(next) => self.detected_from(next),
                None => LayoutNames { layout: Seq::empty(), variant: Seq::empty() },
            },
        }
    }
}

/// The source to ask first.
pub fn first_probe() -> (probe: Probe)
    ensures
        probe == Probe::first(),
{
    Probe::Hyprland
}

/// What to do after `probe` has been asked and has found `found`: the first find decides, and
/// where every source has found nothing the default layout is taken.
pub fn next_step(probe: Probe, found: Option<KeyboardLayout>) -> (step: DetectStep)
    ensures
        match (found, probe.next()) {
            (Some(layout), _) => step == DetectStep::Detected(layout),
            (None, Some(next)) => step == DetectStep::Ask(next),
            (None, None) => step matches DetectStep::Detected(layout) && layout@ == (LayoutNames {
                layout: Seq::empty(),
                variant: Seq::empty(),
            }),
        },
{
    match found {
        Some(layout) => DetectStep::Detected(layout),
        None => match probe {
            Probe::Hyprland => DetectStep::Ask(Probe::Sway),
            Probe::Sway => DetectStep::Ask(Probe::X11),
            Probe::X11 => DetectStep::Ask(Probe::Env),
            Probe::Env => {
                let layout = KeyboardLayout { layout: String::new(), variant: String::new() };
                assert(layout@.layout == Seq::<char>::empty());
                DetectStep::Detected(layout)
            },
        },
    }
}

impl KeyboardLayout {
    /// The layout of the session, from what all sources reported.
    pub fn detect(reports: ProbeReports) -> (detected: KeyboardLayout)
        ensures
            detected@ == reports.detected_from(Probe::first()),
    {
        proof {
            reveal_with_fuel(ProbeReports::detected_from, 5);
        }
        if let Some(layout) = Self::from_hyprland(reports.hyprctl) {
            return layout;
        }
        if let Some(layout) = Self::from_sway(reports.swaymsg) {
            return layout;
        }
        if let Some(layout) = Self::from_x11(
            reports.display_set,
            reports.wayland_display_set,
            reports.setxkbmap,
        ) {
            return layout;
        }
        if let Some(layout) = Self::from_env(
            reports.xkb_default_layout,
            reports.xkb_default_variant,
        ) {
            return layout;
        }
        KeyboardLayout { layout: String::new(), variant: String::new() }
    }
}

} // verus!
