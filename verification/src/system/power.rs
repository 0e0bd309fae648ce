//! Screen power: through a sysfs backlight where there is one, else DPMS.
use vstd::prelude::*;

use crate::config::ini_model::opt_view;
use crate::text::{owned, views};

verus! {

/// The sysfs backlight controls that are looked for, in order.
pub open spec fn backlight_candidates_v() -> Seq<Seq<char>> {
    seq![
        "/sys/class/backlight/rpi_backlight/brightness"@,
        "/sys/class/backlight/backlight/brightness"@,
    ]
}

/// The sysfs backlight controls that are looked for, in order.
pub fn backlight_candidates() -> (res: Vec<String>)
    ensures
        views(res@) == backlight_candidates_v(),
{
    let mut v: Vec<String> = Vec::new();
    v.push(owned("/sys/class/backlight/rpi_backlight/brightness"));
    v.push(owned("/sys/class/backlight/backlight/brightness"));
    assert(views(v@) =~= backlight_candidates_v());
    v
}

/// The first candidate from `i` on that is present.
pub open spec fn first_present(c: Seq<Seq<char>>, present: Seq<bool>, i: int) -> Option<Seq<char>>
    decreases c.len() - i,
{
    if i < 0 || i >= c.len() {
        None
    } else if i < present.len() && present[i] {
        Some(c[i])
    } else {
        first_present(c, present, i + 1)
    }
}

/// What switching the screen does.
pub enum PowerAction {
    /// Write `value` to the backlight control at `path`.
    WriteBrightness { path: String, value: String },
    /// Run `xset dpms force STATE`, with `DISPLAY` set to `display` where given.
    Dpms { state: String, display: Option<String> },
}

/// Switches the screen through the backlight control it found, if any.
pub struct PowerController {
    backlight_path: Option<String>,
}

impl PowerController {
    /// The backlight control in use.
    pub closed spec fn backlight(&self) -> Option<Seq<char>> {
        opt_view(self.backlight_path)
    }

    /// The controller that uses the first candidate control that is present;
    /// `present[i]` says whether candidate `i` exists.
    pub fn new(present: &Vec<bool>) -> (res: PowerController)
        ensures
            res.backlight() == first_present(backlight_candidates_v(), present@, 0),
    {
        let candidates = backlight_candidates();
        let mut i: usize = 0;
        while i < candidates.len()
            invariant
                i <= candidates.len(),
                views(candidates@) == backlight_candidates_v(),
                first_present(backlight_candidates_v(), present@, 0) == first_present(
                    backlight_candidates_v(),
                    present@,
                    i as int,
                ),
            decreases candidates.len() - i,
        {
            if i < present.len() && present[i] {
                return PowerController { backlight_path: Some(candidates[i].clone()) };
            }
            i = i + 1;
        }
        PowerController { backlight_path: None }
    }

    /// The backlight control in use.
    pub fn backlight_path(&self) -> (res: Option<&String>)
        ensures
            match res {
                Some(p) => self.backlight() == Some(p@),
                None => self.backlight() is None,
            },
    {
        self.backlight_path.as_ref()
    }

    /// How to switch the screen on or off: write 255 or 0 to the backlight
    /// control; without one, force DPMS on or off, on display `:0` where no
    /// display is set.
    pub fn set_screen_power(&self, turn_on: bool, display_set: bool) -> (res: PowerAction)
        ensures
            match self.backlight() {
                Some(p) => match res {
                    PowerAction::WriteBrightness { path, value } => path@ == p && value@ == (if turn_on {
                        "255"@
                    } else {
                        "0"@
                    }),
                    _ => false,
                },
                None => match res {
                    PowerAction::Dpms { state, display } => state@ == (if turn_on {
                        "on"@
                    } else {
                        "off"@
                    }) && opt_view(display) == (if display_set {
                        None
                    } else {
                        Some(":0"@)
                    }),
                    _ => false,
                },
            },
    {
        match &self.backlight_path {
            Some(path) => PowerAction::WriteBrightness {
                path: path.clone(),
                value: owned(
                    if turn_on {
                        "255"
                    } else {
                        "0"
                    },
                ),
            },
            None => PowerAction::Dpms {
                state: owned(
                    if turn_on {
                        "on"
                    } else {
                        "off"
                    },
                ),
                display: if display_set {
                    None
                } else {
                    Some(owned(":0"))
                },
            },
        }
    }
}

} // verus!
