//! Outputs and their modes, as read from the output manager's report.

use vstd::prelude::*;

verus! {

/// One display mode. `refresh_rate` is in millionths of a hertz, so that
/// `60.000000 Hz` is `60_000_000`.
#[derive(Clone, Copy, Debug, PartialEq, Eq)]
pub struct OutputMode {
    pub width: i32,
    pub height: i32,
    pub refresh_rate: u64,
    pub current: bool,
    pub preferred: bool,
}

/// One display. `scale` is in millionths, so that a scale of `1.5` is
/// `1_500_000`.
#[derive(Debug, PartialEq)]
pub struct Output {
    pub name: String,
    pub description: String,
    pub make: String,
    pub model: String,
    pub serial: String,
    pub physical_size: String,
    pub position: (i32, i32),
    pub scale: u64,
    pub transform: String,
    pub modes: Vec<OutputMode>,
    pub enabled: bool,
}

impl Clone for Output {
    fn clone(&self) -> Self {
        Output {
            name: self.name.clone(),
            description: self.description.clone(),
            make: self.make.clone(),
            model: self.model.clone(),
            serial: self.serial.clone(),
            physical_size: self.physical_size.clone(),
            position: (self.position.0, self.position.1),
            scale: self.scale,
            transform: self.transform.clone(),
            modes: self.modes.clone(),
            enabled: self.enabled,
        }
    }
}

/// The mathematical value of an `Output`.
pub struct OutputModel {
    pub name: Seq<char>,
    pub description: Seq<char>,
    pub make: Seq<char>,
    pub model: Seq<char>,
    pub serial: Seq<char>,
    pub physical_size: Seq<char>,
    pub position: (i32, i32),
    pub scale: u64,
    pub transform: Seq<char>,
    pub modes: Seq<OutputMode>,
    pub enabled: bool,
}

impl View for Output {
    type V = OutputModel;

    open spec fn view(&self) -> OutputModel {
        OutputModel {
            name: self.name@,
            description: self.description@,
            make: self.make@,
            model: self.model@,
            serial: self.serial@,
            physical_size: self.physical_size@,
            position: self.position,
            scale: self.scale,
            transform: self.transform@,
            modes: self.modes@,
            enabled: self.enabled,
        }
    }
}

/// The index of the first mode flagged current, if any.
pub open spec fn current_mode_index(modes: Seq<OutputMode>) -> Option<int>
    decreases modes.len(),
{
    if modes.len() == 0 {
        None
    } else {
        match current_mode_index(modes.drop_last()) {
            Some(k) => Some(k),
            None => if modes.last().current {
                Some(modes.len() - 1)
            } else {
                None
            },
        }
    }
}

/// The first mode flagged current, if any.
pub open spec fn current_mode(modes: Seq<OutputMode>) -> Option<OutputMode> {
    match current_mode_index(modes) {
        Some(k) => Some(modes[k]),
        None => None,
    }
}

proof fn lemma_current_mode_index(modes: Seq<OutputMode>)
    ensures
        match current_mode_index(modes) {
            Some(k) => 0 <= k < modes.len() && modes[k].current && forall|m: int|
                0 <= m < k ==> !#[trigger] modes[m].current,
            None => forall|m: int| 0 <= m < modes.len() ==> !#[trigger] modes[m].current,
        },
    decreases modes.len(),
{
    if modes.len() > 0 {
        let d = modes.drop_last();
        lemma_current_mode_index(d);
        assert(forall|m: int| 0 <= m < d.len() ==> #[trigger] d[m] == modes[m]);
        match current_mode_index(d) {
            Some(k) => {
                assert forall|m: int| 0 <= m < k implies !#[trigger] modes[m].current by {
                    assert(d[m] == modes[m]);
                }
            },
            None => {
                assert forall|m: int| 0 <= m < d.len() implies !#[trigger] modes[m].current by {
                    assert(d[m] == modes[m]);
                }
            },
        }
    }
}

/// The first mode flagged current, found by a scan from the front.
pub fn find_current_mode(modes: &Vec<OutputMode>) -> (r: Option<OutputMode>)
    ensures
        r == current_mode(modes@),
{
    let mut i: usize = 0;
    while i < modes.len()
        invariant
            i <= modes@.len(),
            current_mode_index(modes@.take(i as int)) is None,
        decreases modes@.len() - i,
    {
        assert(modes@.take(i + 1).drop_last() == modes@.take(i as int));
        if modes[i].current {
            proof {
                lemma_current_mode_index(modes@);
                lemma_current_mode_index(modes@.take(i + 1));
                lemma_current_mode_index(modes@.take(i as int));
                let k = current_mode_index(modes@).unwrap();
                if k > i {
                    assert(!modes@[i as int].current);
                }
                if k < i {
                    assert(modes@.take(i as int)[k] == modes@[k]);
                }
            }
            return Some(modes[i]);
        }
        i = i + 1;
    }
    proof {
        assert(modes@.take(modes@.len() as int) == modes@);
    }
    None
}

} // verus!
