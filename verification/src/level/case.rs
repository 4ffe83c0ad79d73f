use vstd::prelude::*;

use super::Level;

verus! {

/// The outcome that an event case assigns to one set of detector outputs.
#[derive(Clone, Copy, Debug, PartialEq, Eq, Structural)]
pub enum EventType {
    Pass,
    Neutral,
    Fail,
}

impl Default for EventType {
    fn default() -> (r: EventType)
        ensures
            r == EventType::Neutral,
    {
        EventType::Neutral
    }
}

/// One test case of a level: the emitter states to apply and how to judge
/// the detectors.
#[derive(Clone, Debug)]
pub enum TestCase {
    /// The checker will wait until the board state reaches a state its been at
    /// before. At this point, due the the (hopefully) deterministic nature of
    /// the simulation, only states within the cycle can ever be reached again
    /// without altering the inputs. Then the output states in the cycle states
    /// will be compared to the expected values.
    Cycle { lasers: Vec<bool>, detectors: Vec<Vec<bool>> },
    /// This checker allows you to define specific outputs that will immediately
    /// cause the case to pass or fail.
    Event {
        lasers: Vec<bool>,
        default: EventType,
        pass: Vec<Vec<bool>>,
        neutral: Vec<Vec<bool>>,
        fail: Vec<Vec<bool>>,
    },
}

/// What a case shows before it is run: the state of each emitter and of
/// each detector, beside the element's id.
pub struct CasePreview<'a, 'b> {
    laser: (&'a [bool], &'b [u32]),
    detector: (&'a [bool], &'b [u32]),
}

/// The pairs of `states` and `ids` at equal indices, as far as both reach.
pub open spec fn zip_pairs(states: Seq<bool>, ids: Seq<u32>) -> Seq<(bool, u32)> {
    let n = if states.len() <= ids.len() {
        states.len()
    } else {
        ids.len()
    };
    Seq::new(n, |i: int| (states[i], ids[i]))
}

fn zip_exec(states: &[bool], ids: &[u32]) -> (r: Vec<(bool, u32)>)
    ensures
        r@ == zip_pairs(states@, ids@),
{
    let n = if states.len() <= ids.len() {
        states.len()
    } else {
        ids.len()
    };
    let mut r: Vec<(bool, u32)> = Vec::new();
    let mut i: usize = 0;
    while i < n
        invariant
            n <= states@.len(),
            n <= ids@.len(),
            n == zip_pairs(states@, ids@).len(),
            i <= n,
            r@ == zip_pairs(states@, ids@).subrange(0, i as int),
        decreases n - i,
    {
        r.push((states[i], ids[i]));
        proof {
            assert(r@ =~= zip_pairs(states@, ids@).subrange(0, i + 1));
        }
        i = i + 1;
    }
    proof {
        assert(r@ =~= zip_pairs(states@, ids@));
    }
    r
}

impl<'a, 'b> CasePreview<'a, 'b> {
    pub closed spec fn laser_states(&self) -> Seq<bool> {
        self.laser.0@
    }

    pub closed spec fn laser_ids(&self) -> Seq<u32> {
        self.laser.1@
    }

    pub closed spec fn detector_states(&self) -> Seq<bool> {
        self.detector.0@
    }

    pub closed spec fn detector_ids(&self) -> Seq<u32> {
        self.detector.1@
    }

    /// The number of emitter and detector states shown.
    pub fn elements(&self) -> (r: usize)
        requires
            self.detector_states().len() + self.laser_states().len() <= usize::MAX,
        ensures
            r == self.detector_states().len() + self.laser_states().len(),
    {
        self.detector.0.len() + self.laser.0.len()
    }

    /// Each detector's expected state beside its id.
    pub fn detector(&self) -> (r: Vec<(bool, u32)>)
        ensures
            r@ == zip_pairs(self.detector_states(), self.detector_ids()),
    {
        zip_exec(self.detector.0, self.detector.1)
    }

    /// Each emitter's state beside its id.
    pub fn laser(&self) -> (r: Vec<(bool, u32)>)
        ensures
            r@ == zip_pairs(self.laser_states(), self.laser_ids()),
    {
        zip_exec(self.laser.0, self.laser.1)
    }
}

/// The contents of a list of bit vectors.
pub open spec fn bits_view(v: Seq<Vec<bool>>) -> Seq<Seq<bool>> {
    v.map_values(|b: Vec<bool>| b@)
}

/// The emitter states of a case.
pub open spec fn case_lasers(c: TestCase) -> Seq<bool> {
    match c {
        TestCase::Cycle { lasers, .. } => lasers@,
        TestCase::Event { lasers, .. } => lasers@,
    }
}

/// What an event case makes of the detector outputs `outputs`.
pub open spec fn classify_spec(
    pass: Seq<Seq<bool>>,
    neutral: Seq<Seq<bool>>,
    fail: Seq<Seq<bool>>,
    default: EventType,
    outputs: Seq<bool>,
) -> EventType {
    if pass.contains(outputs) {
        EventType::Pass
    } else if neutral.contains(outputs) {
        EventType::Neutral
    } else if fail.contains(outputs) {
        EventType::Fail
    } else {
        default
    }
}

/// Whether two bit vectors are equal.
pub fn bits_equal(a: &Vec<bool>, b: &Vec<bool>) -> (r: bool)
    ensures
        r == (a@ == b@),
{
    if a.len() != b.len() {
        return false;
    }
    let mut i: usize = 0;
    while i < a.len()
        invariant
            a@.len() == b@.len(),
            i <= a@.len(),
            forall|k: int| 0 <= k < i ==> a@[k] == b@[k],
        decreases a@.len() - i,
    {
        if a[i] != b[i] {
            return false;
        }
        i = i + 1;
    }
    assert(a@ =~= b@);
    true
}

/// Whether `outputs` is one of `list`.
pub fn contains_bits(list: &[Vec<bool>], outputs: &Vec<bool>) -> (r: bool)
    ensures
        r == bits_view(list@).contains(outputs@),
{
    let mut i: usize = 0;
    while i < list.len()
        invariant
            i <= list@.len(),
            forall|k: int| 0 <= k < i ==> list@[k]@ != outputs@,
        decreases list@.len() - i,
    {
        if bits_equal(&list[i], outputs) {
            assert(bits_view(list@)[i as int] == outputs@);
            return true;
        }
        i = i + 1;
    }
    proof {
        if bits_view(list@).contains(outputs@) {
            let k = choose|k: int| 0 <= k < bits_view(list@).len() && bits_view(list@)[k] == outputs@;
            assert(list@[k]@ == outputs@);
        }
    }
    false
}

impl TestCase {
    /// The emitter states this case applies.
    pub fn lasers(&self) -> (r: &Vec<bool>)
        ensures
            r@ == case_lasers(*self),
    {
        match self {
            TestCase::Cycle { lasers, .. } => lasers,
            TestCase::Event { lasers, .. } => lasers,
        }
    }

    /// A preview of a cycle case that expects a single detector state; no
    /// preview for any other case.
    pub fn preview<'a, 'b>(&'a self, level: &'b Level) -> (r: Option<CasePreview<'a, 'b>>)
        ensures
            match *self {
                TestCase::Cycle { lasers, detectors } => if detectors@.len() == 1 {
                    r matches Some(p) && p.laser_states() == lasers@ && p.laser_ids()
                        == level.tests.lasers@ && p.detector_states() == detectors@[0]@
                        && p.detector_ids() == level.tests.detectors@
                } else {
                    r is None
                },
                TestCase::Event { .. } => r is None,
            },
    {
        match self {
            TestCase::Cycle { lasers, detectors } => {
                if detectors.len() == 1 {
                    Some(
                        CasePreview {
                            laser: (lasers.as_slice(), level.tests.lasers.as_slice()),
                            detector: (detectors[0].as_slice(), level.tests.detectors.as_slice()),
                        },
                    )
                } else {
                    None
                }
            },
            TestCase::Event { .. } => None,
        }
    }
}

impl EventType {
    /// The first of pass, neutral and fail whose list holds `outputs`, or
    /// `default` when none does.
    pub fn classify(
        pass: &[Vec<bool>],
        neutral: &[Vec<bool>],
        fail: &[Vec<bool>],
        default: Self,
        outputs: &Vec<bool>,
    ) -> (r: Self)
        ensures
            r == classify_spec(
                bits_view(pass@),
                bits_view(neutral@),
                bits_view(fail@),
                default,
                outputs@,
            ),
    {
        if contains_bits(pass, outputs) {
            EventType::Pass
        } else if contains_bits(neutral, outputs) {
            EventType::Neutral
        } else if contains_bits(fail, outputs) {
            EventType::Fail
        } else {
            default
        }
    }
}

} // verus!
