//! The search for the interface that fits best: an adapter of its own is taken
//! before one that serves a Wi-Fi connection.

use vstd::prelude::*;
use crate::text;
use crate::text::{contains, strs, texts, trim};
use crate::utils::{output_lines, pairs, parent_name, parent_of, split_output, Pairs, WpaError, WpaErrorModel};

verus! {

/// The Wi-Fi Direct devices that the lines name, with their parents.
pub open spec fn devices_in(ls: Seq<Seq<char>>) -> Pairs
    decreases ls.len(),
{
    if ls.len() == 0 {
        Seq::empty()
    } else {
        let name = trim(ls.last());
        match parent_of(name) {
            Some(parent) => devices_in(ls.drop_last()).push((name, parent)),
            None => devices_in(ls.drop_last()),
        }
    }
}

/// The wireless interfaces that the lines name.
pub open spec fn adapters_in(ls: Seq<Seq<char>>) -> Seq<Seq<char>>
    decreases ls.len(),
{
    if ls.len() == 0 {
        Seq::empty()
    } else {
        let name = trim(ls.last());
        if parent_of(name) is None && "wl"@.is_prefix_of(name) {
            adapters_in(ls.drop_last()).push(name)
        } else {
            adapters_in(ls.drop_last())
        }
    }
}

/// Whether an adapter is the parent of a device.
pub open spec fn is_parent(devices: Pairs, name: Seq<char>) -> bool {
    exists|i: int| 0 <= i < devices.len() && (#[trigger] devices[i]).1 == name
}

/// The adapters that are no parent of a device.
pub open spec fn spare(devices: Pairs, adapters: Seq<Seq<char>>) -> Seq<Seq<char>>
    decreases adapters.len(),
{
    if adapters.len() == 0 {
        Seq::empty()
    } else if is_parent(devices, adapters.last()) {
        spare(devices, adapters.drop_last())
    } else {
        spare(devices, adapters.drop_last()).push(adapters.last())
    }
}

/// Where the search stands.
#[derive(Debug, Clone, Copy, PartialEq, Eq, Structural)]
pub enum Place {
    /// An adapter of its own is tried.
    Spare(usize),
    /// The parent of a device is asked for its state.
    Device(usize),
    /// An adapter of its own is tried once more.
    SpareAgain(usize),
    /// This adapter has been chosen.
    TookSpare(usize),
    /// This device has been chosen.
    TookDevice(usize),
    /// Nothing fits.
    Nothing,
}

/// The place, or the next one at which there is something to do.
pub open spec fn settled(
    place: Place,
    fallback: Option<usize>,
    spares: int,
    devices: int,
) -> Place {
    match place {
        Place::Spare(i) => if i < spares {
            place
        } else {
            settled_device(0, fallback, spares, devices)
        },
        Place::Device(i) => settled_device(i, fallback, spares, devices),
        Place::SpareAgain(i) => settled_again(i, spares),
        _ => place,
    }
}

/// The place at a device, or what follows the devices.
pub open spec fn settled_device(
    i: usize,
    fallback: Option<usize>,
    spares: int,
    devices: int,
) -> Place {
    if i < devices {
        Place::Device(i)
    } else {
        match fallback {
            Some(k) => Place::TookDevice(k),
            None => settled_again(0, spares),
        }
    }
}

/// The place in the second round over the adapters, or its end.
pub open spec fn settled_again(i: usize, spares: int) -> Place {
    if i < spares {
        Place::SpareAgain(i)
    } else {
        Place::Nothing
    }
}

/// Where the search stands after an answer, and which device it can fall back
/// on. A device that is not free is kept for the case that none is.
pub open spec fn after_answer(
    place: Place,
    fallback: Option<usize>,
    spares: int,
    devices: int,
    good: bool,
) -> (Place, Option<usize>) {
    match place {
        Place::Spare(i) => (
            if good {
                Place::TookSpare(i)
            } else {
                settled(Place::Spare((i + 1) as usize), fallback, spares, devices)
            },
            fallback,
        ),
        Place::Device(i) => if good {
            (Place::TookDevice(i), fallback)
        } else {
            (settled(Place::Device((i + 1) as usize), Some(i), spares, devices), Some(i))
        },
        Place::SpareAgain(i) => (
            if good {
                Place::TookSpare(i)
            } else {
                settled(Place::SpareAgain((i + 1) as usize), fallback, spares, devices)
            },
            fallback,
        ),
        _ => (place, fallback),
    }
}

/// Where the search stands after answers that came one after the other.
pub open spec fn after_answers(
    place: Place,
    fallback: Option<usize>,
    spares: int,
    devices: int,
    answers: Seq<bool>,
) -> (Place, Option<usize>)
    decreases answers.len(),
{
    if answers.len() == 0 {
        (place, fallback)
    } else {
        let before = after_answers(place, fallback, spares, devices, answers.drop_last());
        after_answer(before.0, before.1, spares, devices, answers.last())
    }
}

/// Whether a place is an end of the search.
pub open spec fn is_end(place: Place) -> bool {
    place is TookSpare || place is TookDevice || place is Nothing
}

/// How many answers the search waits for at most.
pub open spec fn answers_from(place: Place, spares: int, devices: int) -> int {
    match place {
        Place::Spare(i) => spares - i + devices + spares,
        Place::Device(i) => devices - i + spares,
        Place::SpareAgain(i) => spares - i,
        _ => 0,
    }
}

proof fn lemma_device_ahead(spares: int, devices: int, answers: Seq<bool>)
    requires
        0 <= spares <= usize::MAX,
        0 < devices <= usize::MAX,
    ensures
        ({
            let start = settled(Place::Spare(0), None, spares, devices);
            let at = after_answers(start, None, spares, devices, answers).0;
            match at {
                Place::Spare(i) => i < spares && i == answers.len(),
                Place::Device(i) => i < devices && i + spares == answers.len(),
                Place::TookSpare(i) => i < spares,
                Place::TookDevice(i) => i < devices,
                _ => false,
            }
        }),
    decreases answers.len(),
{
    if answers.len() > 0 {
        lemma_device_ahead(spares, devices, answers.drop_last());
    }
}

/// Where there is a Wi-Fi Direct device the search always finds an interface,
/// whatever the answers are, and after at most one answer for each adapter and
/// each device.
pub proof fn law_a_device_is_always_found(spares: int, devices: int, answers: Seq<bool>)
    requires
        0 <= spares <= usize::MAX,
        0 < devices <= usize::MAX,
    ensures
        ({
            let start = settled(Place::Spare(0), None, spares, devices);
            let at = after_answers(start, None, spares, devices, answers).0;
            &&& at != Place::Nothing
            &&& answers.len() >= spares + devices ==> at is TookSpare || at is TookDevice
        }),
{
    lemma_device_ahead(spares, devices, answers);
}

proof fn lemma_nothing_free_yet(spares: int, devices: int, answers: Seq<bool>)
    requires
        0 <= spares <= usize::MAX,
        0 < devices <= usize::MAX,
        answers.len() <= spares + devices,
        forall|i: int| 0 <= i < answers.len() ==> !#[trigger] answers[i],
    ensures
        ({
            let n = answers.len() as int;
            let start = settled(Place::Spare(0), None, spares, devices);
            let at = after_answers(start, None, spares, devices, answers);
            if n < spares {
                at == (Place::Spare(n as usize), None::<usize>)
            } else if n == spares {
                at == (Place::Device(0), None::<usize>)
            } else if n < spares + devices {
                at == (Place::Device((n - spares) as usize), Some((n - spares - 1) as usize))
            } else {
                at == (Place::TookDevice((devices - 1) as usize), Some((devices - 1) as usize))
            }
        }),
    decreases answers.len(),
{
    if answers.len() > 0 {
        let before = answers.drop_last();
        assert forall|i: int| 0 <= i < before.len() implies !#[trigger] before[i] by {
            assert(before[i] == answers[i]);
        }
        lemma_nothing_free_yet(spares, devices, before);
        assert(!answers.last());
    }
}

/// The first adapter of its own that passes is taken. Where none passes, the
/// first device whose parent is free is taken.
pub proof fn law_an_idle_adapter_is_taken(spares: int, devices: int, answers: Seq<bool>)
    requires
        0 <= spares <= usize::MAX,
        0 < devices <= usize::MAX,
        0 < answers.len() <= spares + devices,
        answers.last(),
        forall|i: int| 0 <= i < answers.len() - 1 ==> !#[trigger] answers[i],
    ensures
        ({
            let k = answers.len() - 1;
            let start = settled(Place::Spare(0), None, spares, devices);
            let at = after_answers(start, None, spares, devices, answers).0;
            at == if k < spares {
                Place::TookSpare(k as usize)
            } else {
                Place::TookDevice((k - spares) as usize)
            }
        }),
{
    let before = answers.drop_last();
    assert forall|i: int| 0 <= i < before.len() implies !#[trigger] before[i] by {
        assert(before[i] == answers[i]);
    }
    lemma_nothing_free_yet(spares, devices, before);
}

/// A device whose parent is connected is taken only where no adapter of its own
/// passed and every parent was found connected. It is then the last one.
pub proof fn law_a_connected_adapter_is_the_last_resort(
    spares: int,
    devices: int,
    answers: Seq<bool>,
)
    requires
        0 <= spares <= usize::MAX,
        0 < devices <= usize::MAX,
        answers.len() <= spares + devices,
        forall|i: int| 0 <= i < answers.len() ==> !#[trigger] answers[i],
    ensures
        ({
            let start = settled(Place::Spare(0), None, spares, devices);
            let at = after_answers(start, None, spares, devices, answers).0;
            if answers.len() < spares + devices {
                !is_end(at)
            } else {
                at == Place::TookDevice((devices - 1) as usize)
            }
        }),
{
    lemma_nothing_free_yet(spares, devices, answers);
}

proof fn lemma_no_devices(spares: int, answers: Seq<bool>)
    requires
        0 < spares <= usize::MAX,
        answers.len() <= 2 * spares,
        forall|i: int| 0 <= i < answers.len() ==> !#[trigger] answers[i],
    ensures
        ({
            let n = answers.len() as int;
            let start = settled(Place::Spare(0), None, spares, 0);
            let at = after_answers(start, None, spares, 0, answers);
            if n < spares {
                at == (Place::Spare(n as usize), None::<usize>)
            } else if n < 2 * spares {
                at == (Place::SpareAgain((n - spares) as usize), None::<usize>)
            } else {
                at == (Place::Nothing, None::<usize>)
            }
        }),
    decreases answers.len(),
{
    if answers.len() > 0 {
        let before = answers.drop_last();
        assert forall|i: int| 0 <= i < before.len() implies !#[trigger] before[i] by {
            assert(before[i] == answers[i]);
        }
        lemma_no_devices(spares, before);
        assert(!answers.last());
    }
}

/// Without a device each adapter is tried twice before nothing fits, and the
/// first that passes is taken.
pub proof fn law_adapters_are_tried_twice(spares: int, answers: Seq<bool>)
    requires
        0 < spares <= usize::MAX,
        0 < answers.len() <= 2 * spares,
        forall|i: int| 0 <= i < answers.len() - 1 ==> !#[trigger] answers[i],
    ensures
        ({
            let k = answers.len() - 1;
            let start = settled(Place::Spare(0), None, spares, 0);
            let at = after_answers(start, None, spares, 0, answers).0;
            if answers.last() {
                at == Place::TookSpare(
                    if k < spares {
                        k as usize
                    } else {
                        (k - spares) as usize
                    },
                )
            } else {
                at == Place::Nothing <==> k + 1 == 2 * spares
            }
        }),
{
    let before = answers.drop_last();
    assert forall|i: int| 0 <= i < before.len() implies !#[trigger] before[i] by {
        assert(before[i] == answers[i]);
    }
    lemma_no_devices(spares, before);
}

/// What the search asks for or has found.
#[derive(Debug)]
pub enum SearchStep {
    /// Try whether this adapter takes part in Wi-Fi Direct and is not connected.
    Probe(String),
    /// Ask whether this interface is free.
    AskStatus(String),
    /// The Wi-Fi Direct interface and the Wi-Fi interface.
    Found(String, String),
    /// Nothing fits.
    Failed(WpaError),
}

/// The search for an interface.
#[derive(Debug)]
pub struct InterfaceSearch {
    pub devices: Vec<(String, String)>,
    pub spares: Vec<String>,
    pub place: Place,
    pub fallback: Option<usize>,
}

fn knows_parent(devices: &Vec<(String, String)>, name: &[char]) -> (r: bool)
    ensures
        r == is_parent(pairs(devices@), name@),
{
    let ghost p = pairs(devices@);
    let mut i: usize = 0;
    while i < devices.len()
        invariant
            i <= devices@.len(),
            p == pairs(devices@),
            forall|j: int| 0 <= j < i ==> (#[trigger] p[j]).1 != name@,
        decreases devices.len() - i,
    {
        if text::is_text(name, devices[i].1.as_str()) {
            assert(p[i as int].1 == name@);
            return true;
        }
        assert(p[i as int].1 != name@);
        i += 1;
    }
    false
}

impl InterfaceSearch {
    /// Whether every place that the search names exists.
    pub open spec fn wf(&self) -> bool {
        &&& self.fallback matches Some(k) ==> k < self.devices@.len()
        &&& match self.place {
            Place::Spare(i) => i < self.spares@.len(),
            Place::Device(i) => i < self.devices@.len(),
            Place::SpareAgain(i) => i < self.spares@.len(),
            Place::TookSpare(i) => i < self.spares@.len(),
            Place::TookDevice(i) => i < self.devices@.len(),
            Place::Nothing => true,
        }
    }

    /// Starts the search among the interfaces that the supplicant lists.
    pub fn new(listing: &str) -> (r: InterfaceSearch)
        ensures
            r.wf(),
            pairs(r.devices@) == devices_in(output_lines(Some(listing))),
            strs(r.spares@) == spare(
                devices_in(output_lines(Some(listing))),
                adapters_in(output_lines(Some(listing))),
            ),
            r.fallback is None,
            r.place == settled(
                Place::Spare(0),
                None,
                r.spares@.len() as int,
                r.devices@.len() as int,
            ),
    {
        let ls: Vec<Vec<char>> = split_output(Some(listing));
        let ghost gs = texts(ls@);
        let mut devices: Vec<(String, String)> = Vec::new();
        let mut i: usize = 0;
        assert(pairs(devices@) =~= devices_in(gs.take(0)));
        while i < ls.len()
            invariant
                i <= ls@.len(),
                gs == texts(ls@),
                pairs(devices@) == devices_in(gs.take(i as int)),
            decreases ls.len() - i,
        {
            assert(gs.take(i + 1).drop_last() =~= gs.take(i as int));
            let ghost before = pairs(devices@);
            let name: &[char] = text::trimmed(ls[i].as_slice());
            if let Some(parent) = parent_name(name) {
                let a: String = text::string_of(name);
                let b: String = text::string_of(parent.as_slice());
                let ghost pair = (a@, b@);
                devices.push((a, b));
                assert(pairs(devices@) =~= before.push(pair));
            }
            i += 1;
        }
        assert(gs.take(gs.len() as int) =~= gs);
        let ghost ds = pairs(devices@);
        let mut spares: Vec<String> = Vec::new();
        let mut k: usize = 0;
        assert(strs(spares@) =~= spare(ds, adapters_in(gs.take(0))));
        while k < ls.len()
            invariant
                k <= ls@.len(),
                gs == texts(ls@),
                ds == pairs(devices@),
                strs(spares@) == spare(ds, adapters_in(gs.take(k as int))),
            decreases ls.len() - k,
        {
            assert(gs.take(k + 1).drop_last() =~= gs.take(k as int));
            let ghost before = strs(spares@);
            let ghost adapters = adapters_in(gs.take(k as int));
            let name: &[char] = text::trimmed(ls[k].as_slice());
            if parent_name(name).is_none() && text::begins_with(name, "wl") {
                assert(adapters.push(name@).drop_last() =~= adapters);
                if !knows_parent(&devices, name) {
                    let a: String = text::string_of(name);
                    let ghost av = a@;
                    spares.push(a);
                    assert(strs(spares@) =~= before.push(av));
                }
            }
            k += 1;
        }
        let place: Place = if spares.len() > 0 {
            Place::Spare(0)
        } else if devices.len() > 0 {
            Place::Device(0)
        } else {
            Place::Nothing
        };
        InterfaceSearch { devices, spares, place, fallback: None }
    }

    /// What is to be asked next, or what was found.
    pub fn step(&self) -> (r: SearchStep)
        requires
            self.wf(),
        ensures
            match self.place {
                Place::Spare(i) => r matches SearchStep::Probe(n) && n@ == self.spares@[i as int]@,
                Place::SpareAgain(i) => r matches SearchStep::Probe(n) && n@
                    == self.spares@[i as int]@,
                Place::Device(i) => r matches SearchStep::AskStatus(n) && n@
                    == self.devices@[i as int].1@,
                Place::TookSpare(i) => r matches SearchStep::Found(a, b) && a@
                    == self.spares@[i as int]@ && b@ == self.spares@[i as int]@,
                Place::TookDevice(i) => r matches SearchStep::Found(a, b) && a@
                    == self.devices@[i as int].0@ && b@ == self.devices@[i as int].1@,
                Place::Nothing => r matches SearchStep::Failed(e) && e@ == WpaErrorModel::Runtime(
                    "No P2P-capable interface detected. Ensure Wi-Fi is enabled and wpa_supplicant has P2P support."@,
                ),
            },
    {
        match self.place {
            Place::Spare(i) => SearchStep::Probe(self.spares[i].clone()),
            Place::SpareAgain(i) => SearchStep::Probe(self.spares[i].clone()),
            Place::Device(i) => SearchStep::AskStatus(self.devices[i].1.clone()),
            Place::TookSpare(i) => SearchStep::Found(
                self.spares[i].clone(),
                self.spares[i].clone(),
            ),
            Place::TookDevice(i) => SearchStep::Found(
                self.devices[i].0.clone(),
                self.devices[i].1.clone(),
            ),
            Place::Nothing => SearchStep::Failed(
                WpaError::Runtime(
                    "No P2P-capable interface detected. Ensure Wi-Fi is enabled and wpa_supplicant has P2P support.".to_owned(),
                ),
            ),
        }
    }

    /// Takes the answer to what was asked: whether the adapter passed the
    /// probe, or whether the interface is free. One that is not free is kept
    /// for the case that none is.
    pub fn answer(&mut self, good: bool)
        requires
            old(self).wf(),
            !is_end(old(self).place),
        ensures
            final(self).wf(),
            final(self).devices@ == old(self).devices@,
            final(self).spares@ == old(self).spares@,
            (final(self).place, final(self).fallback) == after_answer(
                old(self).place,
                old(self).fallback,
                old(self).spares@.len() as int,
                old(self).devices@.len() as int,
                good,
            ),
            answers_from(
                final(self).place,
                old(self).spares@.len() as int,
                old(self).devices@.len() as int,
            ) < answers_from(
                old(self).place,
                old(self).spares@.len() as int,
                old(self).devices@.len() as int,
            ),
    {
        let ns: usize = self.spares.len();
        let nd: usize = self.devices.len();
        match self.place {
            Place::Spare(i) => {
                if good {
                    self.place = Place::TookSpare(i);
                } else if i + 1 < ns {
                    self.place = Place::Spare(i + 1);
                } else {
                    self.place = self.after_spares();
                }
            },
            Place::Device(i) => {
                if good {
                    self.place = Place::TookDevice(i);
                } else {
                    self.fallback = Some(i);
                    if i + 1 < nd {
                        self.place = Place::Device(i + 1);
                    } else {
                        self.place = Place::TookDevice(i);
                    }
                }
            },
            Place::SpareAgain(i) => {
                if good {
                    self.place = Place::TookSpare(i);
                } else if i + 1 < ns {
                    self.place = Place::SpareAgain(i + 1);
                } else {
                    self.place = Place::Nothing;
                }
            },
            _ => {},
        }
    }

    fn after_spares(&self) -> (r: Place)
        requires
            self.fallback matches Some(k) ==> k < self.devices@.len(),
        ensures
            r == settled_device(
                0,
                self.fallback,
                self.spares@.len() as int,
                self.devices@.len() as int,
            ),
    {
        if self.devices.len() > 0 {
            Place::Device(0)
        } else {
            match self.fallback {
                Some(k) => Place::TookDevice(k),
                None => if self.spares.len() > 0 {
                    Place::SpareAgain(0)
                } else {
                    Place::Nothing
                },
            }
        }
    }
}

/// Whether an adapter passes the probe: it takes a search, and it is not
/// connected. What could not be asked counts against it.
pub fn probe_passes(find: Option<&str>, status: Option<&str>) -> (r: bool)
    ensures
        r == ((find matches Some(f) && contains(f@, "OK"@)) && (status matches Some(s) && !contains(
            s@,
            "wpa_state=COMPLETED"@,
        ))),
{
    probe_find_passes(find) && is_free(status)
}

/// Whether an adapter takes a search.
pub fn probe_find_passes(find: Option<&str>) -> (r: bool)
    ensures
        r == (find matches Some(f) && contains(f@, "OK"@)),
{
    match find {
        Some(f) => text::holds(text::chars_of(f).as_slice(), "OK"),
        None => false,
    }
}

/// Whether an interface is known not to be connected.
pub fn is_free(status: Option<&str>) -> (r: bool)
    ensures
        r == (status matches Some(s) && !contains(s@, "wpa_state=COMPLETED"@)),
{
    match status {
        Some(s) => !text::holds(text::chars_of(s).as_slice(), "wpa_state=COMPLETED"),
        None => false,
    }
}

/// The error of a listing that could not be had.
pub fn listing_unavailable(reason: &str) -> (r: WpaError)
    ensures
        r@ == WpaErrorModel::Runtime(
            "Failed to execute wpa_cli: "@ + reason@
                + ". Ensure wpa_supplicant is installed and accessible."@,
        ),
{
    let mut m: String = text::joined("Failed to execute wpa_cli: ".to_owned(), reason);
    m.append(". Ensure wpa_supplicant is installed and accessible.");
    WpaError::Runtime(m)
}

/// The error of a listing that was refused.
pub fn listing_refused() -> (r: WpaError)
    ensures
        r@ == WpaErrorModel::Runtime(
            "wpa_cli returned non-zero exit code. Ensure wpa_supplicant is running with P2P support."@,
        ),
{
    WpaError::Runtime(
        "wpa_cli returned non-zero exit code. Ensure wpa_supplicant is running with P2P support.".to_owned(),
    )
}

} // verus!
