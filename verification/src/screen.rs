//! Which screen the launcher opens on, and how large it may get there.

use crate::text::{contains_part, same_text, to_lowercase, trim};
use vstd::prelude::*;
use vstd::string::*;

verus! {

/// The least width that the search field is asked for, where a screen is narrow.
pub const MIN_SEARCH_WIDTH: i32 = 200;

/// How long after it is shown the launcher ignores a loss of focus, in
/// milliseconds.
pub const FOCUS_GRACE_MILLIS: u64 = 400;

/// What a screen says about itself.
#[derive(Debug, Clone)]
pub struct Monitor {
    pub connector: Option<String>,
    pub manufacturer: Option<String>,
    pub model: Option<String>,
    pub description: Option<String>,
}

/// A text for comparison: without white space around it and in lower case, and
/// empty where there is none.
pub open spec fn plain(s: Option<Seq<char>>) -> Seq<char> {
    match s {
        Some(text) => crate::text::lowercase(crate::text::trimmed(text)),
        None => Seq::empty(),
    }
}

/// A text for comparison that says something.
pub open spec fn known(s: Option<Seq<char>>) -> Option<Seq<char>> {
    let text = plain(s);
    if text.len() == 0 || text == "unknown"@ {
        None
    } else {
        Some(text)
    }
}

/// Whether a known text has the wanted part.
pub open spec fn known_has(s: Option<Seq<char>>, wanted: Seq<char>) -> bool {
    known(s) is Some && crate::text::has_part(known(s)->0, wanted)
}

/// Whether a screen goes by a name: it is the name of its connector, or a part of
/// its model, its description, its manufacturer, or manufacturer and model.
pub open spec fn matches_screen(m: Monitor, wanted: Seq<char>) -> bool {
    let manufacturer = crate::text::opt_text(m.manufacturer);
    let model = crate::text::opt_text(m.model);
    ||| plain(crate::text::opt_text(m.connector)) == wanted
    ||| known_has(model, wanted)
    ||| known_has(crate::text::opt_text(m.description), wanted)
    ||| known(manufacturer) is Some && known(model) is Some && crate::text::has_part(
        known(manufacturer)->0 + " "@ + known(model)->0,
        wanted,
    )
    ||| known_has(manufacturer, wanted)
}

fn plain_text(s: &Option<String>) -> (r: String)
    ensures
        r@ == plain(crate::text::opt_text(*s)),
{
    match s {
        Some(text) => {
            let t = trim(text.as_str());
            to_lowercase(t.as_str())
        },
        None => String::new(),
    }
}

fn known_text(s: &Option<String>) -> (r: Option<String>)
    ensures
        crate::text::opt_text(r) == known(crate::text::opt_text(*s)),
{
    let text = plain_text(s);
    if text.as_str().is_empty() || same_text(text.as_str(), "unknown") {
        None
    } else {
        Some(text)
    }
}

fn has_wanted(s: &Option<String>, wanted: &str) -> (r: bool)
    ensures
        r == (s is Some && crate::text::has_part(s->0@, wanted@)),
{
    match s {
        Some(text) => contains_part(text.as_str(), wanted),
        None => false,
    }
}

/// Whether a screen goes by a name, which is given in lower case and without
/// white space around it.
pub fn monitor_matches(monitor: &Monitor, wanted: &str) -> (r: bool)
    ensures
        r == matches_screen(*monitor, wanted@),
{
    let connector = plain_text(&monitor.connector);
    if same_text(connector.as_str(), wanted) {
        return true;
    }
    let manufacturer = known_text(&monitor.manufacturer);
    let model = known_text(&monitor.model);
    let described = known_text(&monitor.description);
    let full = match (&manufacturer, &model) {
        (Some(m), Some(n)) => {
            let mut full = m.clone();
            full.append(" ");
            full.append(n.as_str());
            Some(full)
        },
        _ => None,
    };
    has_wanted(&model, wanted) || has_wanted(&described, wanted) || has_wanted(&full, wanted)
        || has_wanted(&manufacturer, wanted)
}

/// The first attached screen that goes by a name.
pub open spec fn screen_named(attached: Seq<Monitor>, wanted: Seq<char>) -> Option<int>
    decreases attached.len(),
{
    if attached.len() == 0 {
        None
    } else {
        match screen_named(attached.drop_last(), wanted) {
            Some(i) => Some(i),
            None => if matches_screen(attached.last(), wanted) {
                Some(attached.len() - 1)
            } else {
                None
            },
        }
    }
}

/// The screen that is preferred: the first that a wish of the list finds.
pub open spec fn preferred(outputs: Seq<Seq<char>>, attached: Seq<Monitor>) -> Option<int>
    decreases outputs.len(),
{
    if outputs.len() == 0 {
        None
    } else {
        match preferred(outputs.drop_last(), attached) {
            Some(i) => Some(i),
            None => {
                let wanted = plain(Some(outputs.last()));
                if wanted.len() == 0 {
                    None
                } else {
                    screen_named(attached, wanted)
                }
            },
        }
    }
}

fn find_screen(attached: &Vec<Monitor>, wanted: &str) -> (r: Option<usize>)
    ensures
        match r {
            Some(i) => i < attached@.len() && screen_named(attached@, wanted@) == Some(i as int),
            None => screen_named(attached@, wanted@) is None,
        },
{
    let mut found: Option<usize> = None;
    let mut i: usize = 0;
    while i < attached.len()
        invariant
            i <= attached.len(),
            match found {
                Some(at) => at < i && screen_named(attached@.take(i as int), wanted@) == Some(
                    at as int,
                ),
                None => screen_named(attached@.take(i as int), wanted@) is None,
            },
        decreases attached.len() - i,
    {
        assert(attached@.take(i + 1).drop_last() =~= attached@.take(i as int));
        if found.is_none() && monitor_matches(&attached[i], wanted) {
            found = Some(i);
        }
        i = i + 1;
    }
    assert(attached@.take(i as int) =~= attached@);
    found
}

/// The screen that the launcher opens on, if a wish names one that is attached.
/// Else the compositor decides.
pub fn preferred_monitor(outputs: &Vec<String>, attached: &Vec<Monitor>) -> (r: Option<usize>)
    ensures
        match r {
            Some(i) => i < attached@.len() && preferred(
                crate::text::texts(outputs@),
                attached@,
            ) == Some(i as int),
            None => preferred(crate::text::texts(outputs@), attached@) is None,
        },
{
    let ghost wishes = crate::text::texts(outputs@);
    let mut found: Option<usize> = None;
    let mut i: usize = 0;
    while i < outputs.len()
        invariant
            i <= outputs.len(),
            wishes == crate::text::texts(outputs@),
            match found {
                Some(at) => at < attached@.len() && preferred(wishes.take(i as int), attached@)
                    == Some(at as int),
                None => preferred(wishes.take(i as int), attached@) is None,
            },
        decreases outputs.len() - i,
    {
        proof {
            assert(wishes.take(i + 1).drop_last() =~= wishes.take(i as int));
            assert(wishes.take(i + 1).last() == outputs@[i as int]@);
        }
        if found.is_none() {
            let t = trim(outputs[i].as_str());
            let wanted = to_lowercase(t.as_str());
            if !wanted.as_str().is_empty() {
                found = find_screen(attached, wanted.as_str());
            }
        }
        i = i + 1;
    }
    assert(wishes.take(i as int) =~= wishes);
    found
}

/// Whether a size is the least positive one of a list.
pub open spec fn least_positive(sizes: Seq<i32>, size: i32) -> bool {
    &&& size > 0
    &&& sizes.contains(size)
    &&& forall|i: int| 0 <= i < sizes.len() && sizes[i] > 0 ==> size <= #[trigger] sizes[i]
}

/// The smallest extent of the attached screens, or the fallback where none says.
pub fn smallest(sizes: &Vec<i32>, fallback: i32) -> (r: i32)
    ensures
        (exists|i: int| 0 <= i < sizes@.len() && #[trigger] sizes@[i] > 0) ==> least_positive(
            sizes@,
            r,
        ),
        !(exists|i: int| 0 <= i < sizes@.len() && #[trigger] sizes@[i] > 0) ==> r == fallback,
        forall|i: int| 0 <= i < sizes@.len() && sizes@[i] > 0 ==> 0 < r <= #[trigger] sizes@[i],
{
    let mut least: Option<i32> = None;
    let mut i: usize = 0;
    while i < sizes.len()
        invariant
            i <= sizes.len(),
            match least {
                Some(size) => {
                    &&& size > 0
                    &&& exists|k: int| 0 <= k < i && #[trigger] sizes@[k] == size
                    &&& forall|k: int|
                        0 <= k < i && sizes@[k] > 0 ==> size <= #[trigger] sizes@[k]
                },
                None => forall|k: int| 0 <= k < i ==> #[trigger] sizes@[k] <= 0,
            },
        decreases sizes.len() - i,
    {
        let size: i32 = sizes[i];
        if size > 0 {
            match least {
                Some(known) => if size < known {
                    least = Some(size);
                },
                None => {
                    least = Some(size);
                },
            }
        }
        i = i + 1;
    }
    match least {
        Some(size) => size,
        None => fallback,
    }
}

/// The width that the search field is asked for: the configured one, less what
/// the content exceeds the screen by, but not less than the least.
pub fn search_width(configured: i32, minimum: i32, cap: i32) -> (r: i32)
    requires
        i32::MIN <= minimum - cap <= i32::MAX,
        minimum > cap ==> configured - (minimum - cap) >= i32::MIN,
    ensures
        r == (if minimum <= cap {
            configured as int
        } else if configured - (minimum - cap) >= MIN_SEARCH_WIDTH {
            configured - (minimum - cap)
        } else {
            MIN_SEARCH_WIDTH as int
        }),
        minimum <= cap ==> r == configured,
        minimum > cap ==> r >= 200 && (r == 200 || configured - r == minimum - cap),
{
    let overrun: i32 = minimum - cap;
    if overrun > 0 {
        let left: i32 = configured - overrun;
        if left >= MIN_SEARCH_WIDTH {
            left
        } else {
            MIN_SEARCH_WIDTH
        }
    } else {
        configured
    }
}

/// How the launcher takes the keyboard.
#[derive(Debug, Clone, Copy, PartialEq, Eq, Structural)]
pub enum KeyboardMode {
    Exclusive,
    OnDemand,
    Nothing,
}

/// How the launcher takes the keyboard: for itself, unless configured otherwise.
pub fn keyboard_mode(configured: &str) -> (r: KeyboardMode)
    ensures
        r == (if configured@ == "ondemand"@ {
            KeyboardMode::OnDemand
        } else if configured@ == "none"@ {
            KeyboardMode::Nothing
        } else {
            KeyboardMode::Exclusive
        }),
{
    if same_text(configured, "ondemand") {
        KeyboardMode::OnDemand
    } else if same_text(configured, "none") {
        KeyboardMode::Nothing
    } else {
        KeyboardMode::Exclusive
    }
}

/// Whether the launcher is a layer of the desktop and not a window.
pub fn is_layer(surface: &str, layer_off: bool) -> (r: bool)
    ensures
        r == (surface@ == "layer"@ && !layer_off),
{
    same_text(surface, "layer") && !layer_off
}

/// When the launcher starts to mind a loss of focus, having been shown at a time
/// in milliseconds; never, where that time is out of reach.
pub fn focus_deadline(shown: u64) -> (r: Option<u64>)
    ensures
        r == (if shown + FOCUS_GRACE_MILLIS <= u64::MAX {
            Some((shown + FOCUS_GRACE_MILLIS) as u64)
        } else {
            None
        }),
        r is Some <==> shown + 400 <= u64::MAX,
        r is Some ==> r->0 - shown == 400,
{
    shown.checked_add(FOCUS_GRACE_MILLIS)
}

/// Whether a loss of focus dismisses the launcher.
pub fn blur_dismisses(active: bool, now: u64, deadline: Option<u64>) -> (r: bool)
    ensures
        r == (!active && deadline is Some && now >= deadline->0),
{
    match deadline {
        Some(at) => !active && now >= at,
        None => false,
    }
}

/// The screen of a name is the first attached one that the name fits.
pub proof fn first_screen_that_fits(attached: Seq<Monitor>, wanted: Seq<char>)
    ensures
        match screen_named(attached, wanted) {
            Some(i) => 0 <= i < attached.len() && matches_screen(attached[i], wanted) && forall|
                k: int,
            |
                0 <= k < i ==> !matches_screen(#[trigger] attached[k], wanted),
            None => forall|k: int|
                0 <= k < attached.len() ==> !matches_screen(#[trigger] attached[k], wanted),
        },
    decreases attached.len(),
{
    if attached.len() > 0 {
        first_screen_that_fits(attached.drop_last(), wanted);
        assert forall|k: int| 0 <= k < attached.len() - 1 implies #[trigger] attached[k]
            == attached.drop_last()[k] by {}
    }
}

/// The first output of the list that fits an attached screen decides. Blank
/// outputs fit none.
pub proof fn first_output_decides(outputs: Seq<Seq<char>>, attached: Seq<Monitor>, o: int)
    requires
        0 <= o < outputs.len(),
        plain(Some(outputs[o])).len() > 0,
        screen_named(attached, plain(Some(outputs[o]))) is Some,
        forall|k: int|
            0 <= k < o ==> plain(Some(#[trigger] outputs[k])).len() == 0 || screen_named(
                attached,
                plain(Some(outputs[k])),
            ) is None,
    ensures
        preferred(outputs, attached) == screen_named(attached, plain(Some(outputs[o]))),
    decreases outputs.len(),
{
    let fewer = outputs.drop_last();
    assert forall|k: int| 0 <= k < fewer.len() implies #[trigger] fewer[k] == outputs[k] by {}
    if o < fewer.len() {
        first_output_decides(fewer, attached, o);
    } else {
        no_output_fits(fewer, attached);
    }
}

/// Without an output that fits a screen, none is preferred.
pub proof fn no_output_fits(outputs: Seq<Seq<char>>, attached: Seq<Monitor>)
    requires
        forall|k: int|
            0 <= k < outputs.len() ==> plain(Some(#[trigger] outputs[k])).len() == 0
                || screen_named(attached, plain(Some(outputs[k]))) is None,
    ensures
        preferred(outputs, attached) is None,
    decreases outputs.len(),
{
    if outputs.len() > 0 {
        let fewer = outputs.drop_last();
        assert forall|k: int| 0 <= k < fewer.len() implies #[trigger] fewer[k] == outputs[k] by {}
        no_output_fits(fewer, attached);
        assert(outputs[outputs.len() - 1] == outputs.last());
    }
}

/// A name fits a screen by its whole connector, or by a part of its model, its
/// description, its manufacturer, or manufacturer and model together; whatever
/// the case. What is blank or unknown fits no name.
pub proof fn what_a_name_fits(m: Monitor, wanted: Seq<char>, front: Seq<char>, behind: Seq<char>)
    ensures
        m.connector is Some && crate::text::lowercase(crate::text::trimmed(m.connector->0@))
            == wanted ==> matches_screen(m, wanted),
        m.model is Some && crate::text::lowercase(crate::text::trimmed(m.model->0@)) == front
            + wanted + behind && (front + wanted + behind).len() > 0 && front + wanted + behind
            != "unknown"@ ==> matches_screen(m, wanted),
        m.description is Some && crate::text::lowercase(crate::text::trimmed(m.description->0@))
            == front + wanted + behind && (front + wanted + behind).len() > 0 && front + wanted
            + behind != "unknown"@ ==> matches_screen(m, wanted),
        m.manufacturer is Some && crate::text::lowercase(crate::text::trimmed(m.manufacturer->0@))
            == front + wanted + behind && (front + wanted + behind).len() > 0 && front + wanted
            + behind != "unknown"@ ==> matches_screen(m, wanted),
        known(crate::text::opt_text(m.manufacturer)) is Some && known(
            crate::text::opt_text(m.model),
        ) is Some && wanted == known(crate::text::opt_text(m.manufacturer))->0 + " "@ + known(
            crate::text::opt_text(m.model),
        )->0 ==> matches_screen(m, wanted),
        wanted.len() > 0 && m.connector is None && m.model is None && m.description is None
            && m.manufacturer is None ==> !matches_screen(m, wanted),
{
    crate::text::parts_stand_anywhere(front, wanted, behind, wanted);
    crate::text::parts_stand_anywhere(Seq::empty(), wanted, Seq::empty(), wanted);
    assert(Seq::<char>::empty() + wanted + Seq::<char>::empty() =~= wanted);
}

/// A text that is missing, blank or the word for unknown is not known.
pub proof fn blank_is_unknown(s: Option<Seq<char>>)
    ensures
        known(s) is None <==> s is None || crate::text::lowercase(crate::text::trimmed(s->0)).len() == 0
            || crate::text::lowercase(crate::text::trimmed(s->0)) == "unknown"@,
        known(s) is Some ==> known(s)->0 == crate::text::lowercase(crate::text::trimmed(s->0)),
{
}

/// The least size is one of the sizes, above zero, and no other above zero is
/// less.
pub proof fn least_of_the_sizes(sizes: Seq<i32>, size: i32, i: int)
    requires
        least_positive(sizes, size),
    ensures
        size > 0,
        sizes.contains(size),
        0 <= i < sizes.len() && sizes[i] > 0 ==> size <= sizes[i],
{
}

} // verus!
