use vstd::prelude::*;
use vstd::string::*;
use crate::affinity::{affinity_setting, prepare_affinity, write_matches, AffinityError, AffinityWrite};
use crate::queues::{queue_command, is_safe_interface_name, NetworkQueues, QueueError};

verus! {

/// The settings of one network interface: its queue counts and the CPU
/// affinity list of each of its interrupts.
#[derive(Debug, Default)]
pub struct NetworkInterface {
    name: String,
    queues: NetworkQueues,
    /// Interrupt number (as written in the configuration) and affinity list,
    /// each interrupt at most once, in the order they were added.
    irqs: Vec<(String, String)>,
}

/// What an interface's settings are: its name as the system knows it (such as
/// `eth0`), its queue counts, and its (interrupt number, affinity list) text
/// pairs in the order they were added.
pub struct InterfaceModel {
    pub name: Seq<char>,
    pub queues: NetworkQueues,
    pub irqs: Seq<(Seq<char>, Seq<char>)>,
}

impl View for NetworkInterface {
    type V = InterfaceModel;

    closed spec fn view(&self) -> InterfaceModel {
        InterfaceModel {
            name: self.name@,
            queues: self.queues,
            irqs: self.irqs@.map_values(|p: (String, String)| (p.0@, p.1@)),
        }
    }
}

/// The interrupt numbers are pairwise distinct.
pub open spec fn keys_distinct(entries: Seq<(Seq<char>, Seq<char>)>) -> bool {
    forall|i: int, j: int| 0 <= i < j < entries.len() ==> #[trigger] entries[i].0 != #[trigger] entries[j].0
}

/// Reads each interrupt setting in order; the first refused one decides the
/// error, else all of them are read.
pub open spec fn affinity_settings(entries: Seq<(Seq<char>, Seq<char>)>) -> Result<Seq<(u32, Seq<char>)>, AffinityError>
    decreases entries.len(),
{
    if entries.len() == 0 {
        Ok(Seq::empty())
    } else {
        match affinity_settings(entries.drop_last()) {
            Err(e) => Err(e),
            Ok(done) => match affinity_setting(entries.last().0, entries.last().1) {
                Err(e) => Err(e),
                Ok(s) => Ok(done.push(s)),
            },
        }
    }
}

impl NetworkInterface {
    /// Each interrupt has one setting at most.
    pub open spec fn wf(&self) -> bool {
        keys_distinct(self@.irqs)
    }

    /// An interface with the given queue counts and no interrupt settings.
    pub fn new(name: String, queues: NetworkQueues) -> (r: NetworkInterface)
        ensures
            r@.name == name@,
            r@.queues == queues,
            r@.irqs == Seq::<(Seq<char>, Seq<char>)>::empty(),
            r.wf(),
    {
        let r = NetworkInterface { name, queues, irqs: Vec::new() };
        proof {
            assert(r@.irqs =~= Seq::<(Seq<char>, Seq<char>)>::empty());
        }
        r
    }

    /// Sets the affinity list of interrupt `irq`, replacing an earlier setting
    /// of the same interrupt in its place, or adding it at the end.
    pub fn set_irq(&mut self, irq: String, affinity: String)
        requires
            old(self).wf(),
        ensures
            final(self).wf(),
            final(self)@.name == old(self)@.name,
            final(self)@.queues == old(self)@.queues,
            forall|i: int| 0 <= i < old(self)@.irqs.len() && old(self)@.irqs[i].0 == irq@
                ==> final(self)@.irqs == old(self)@.irqs.update(i, (irq@, affinity@)),
            (forall|i: int| 0 <= i < old(self)@.irqs.len() ==> old(self)@.irqs[i].0 != irq@)
                ==> final(self)@.irqs == old(self)@.irqs.push((irq@, affinity@)),
    {
        let ghost before = self@.irqs;
        let mut i: usize = 0;
        while i < self.irqs.len()
            invariant
                i <= self.irqs.len(),
                self@.irqs == before,
                old(self)@.irqs == before,
                self.name == old(self).name,
                self.queues == old(self).queues,
                keys_distinct(before),
                forall|j: int| 0 <= j < i ==> before[j].0 != irq@,
            decreases self.irqs.len() - i,
        {
            if self.irqs[i].0 == irq {
                proof {
                    assert(before[i as int].0 == self.irqs@[i as int].0@);
                    assert(before[i as int].0 == irq@);
                }
                self.irqs.set(i, (irq, affinity));
                proof {
                    let e = self@.irqs;
                    assert(e =~= before.update(i as int, (irq@, affinity@)));
                    assert forall|a: int, b: int| 0 <= a < b < e.len() implies #[trigger] e[a].0 != #[trigger] e[b].0 by {
                        if a == i {
                            assert(before[b].0 != before[a].0);
                        } else if b == i {
                            assert(before[a].0 != before[b].0);
                        }
                    }
                    assert forall|k: int| 0 <= k < before.len() && before[k].0 == irq@ implies
                        e == before.update(k, (irq@, affinity@)) by {
                        if k != i {
                            if k < i {
                            } else {
                                assert(before[i as int].0 != before[k].0);
                            }
                        }
                    }
                }
                return;
            }
            i = i + 1;
        }
        self.irqs.push((irq, affinity));
        proof {
            let e = self@.irqs;
            assert(e =~= before.push((irq@, affinity@)));
            assert forall|a: int, b: int| 0 <= a < b < e.len() implies #[trigger] e[a].0 != #[trigger] e[b].0 by {
                if b == before.len() {
                    assert(before[a].0 != irq@);
                } else {
                    assert(before[a].0 != before[b].0);
                }
            }
        }
    }

    /// The interface's name.
    pub fn name(&self) -> (r: &str)
        ensures
            r@ == self@.name,
    {
        self.name.as_str()
    }

    /// The interrupt settings, as (interrupt number, affinity list) pairs.
    pub fn irqs(&self) -> (r: &Vec<(String, String)>)
        ensures
            r@.map_values(|p: (String, String)| (p.0@, p.1@)) == self@.irqs,
    {
        &self.irqs
    }

    /// The interface's queue counts.
    pub fn queues(&self) -> (r: NetworkQueues)
        ensures
            r == self@.queues,
    {
        self.queues
    }

    /// The argument list of the device tool that sets this interface's queue
    /// counts; refused when the name is not all ASCII letters and digits.
    pub fn configure_queues(&self) -> (r: Result<Vec<String>, QueueError>)
        ensures
            is_safe_interface_name(self@.name) ==> (r matches Ok(v) && v.deep_view() == queue_command(self@.name, self@.queues)),
            !is_safe_interface_name(self@.name) ==> r == Err::<Vec<String>, QueueError>(QueueError::UnsafeInterfaceName),
    {
        self.queues.command(self.name.as_str())
    }

    /// Checks every interrupt setting, in order, and says what to write where.
    /// Any refused setting refuses them all, so nothing is written unless all
    /// of them are sound.
    pub fn irq_affinity_writes(&self) -> (r: Result<Vec<AffinityWrite>, AffinityError>)
        ensures
            match affinity_settings(self@.irqs) {
                Ok(s) => r matches Ok(v) && v.len() == s.len()
                    && forall|k: int| 0 <= k < s.len() ==> write_matches(#[trigger] v[k], s[k]),
                Err(e) => r == Err::<Vec<AffinityWrite>, AffinityError>(e),
            },
    {
        let ghost entries = self@.irqs;
        let mut out: Vec<AffinityWrite> = Vec::new();
        let mut i: usize = 0;
        while i < self.irqs.len()
            invariant
                i <= self.irqs.len(),
                entries == self@.irqs,
                entries.len() == self.irqs.len(),
                affinity_settings(entries.subrange(0, i as int)) matches Ok(s)
                    && out.len() == s.len()
                    && forall|k: int| 0 <= k < s.len() ==> write_matches(#[trigger] out[k], s[k]),
            decreases self.irqs.len() - i,
        {
            let pair = &self.irqs[i];
            proof {
                assert(entries.subrange(0, i + 1).drop_last() =~= entries.subrange(0, i as int));
                assert(entries[i as int] == (pair.0@, pair.1@));
            }
            match prepare_affinity(pair.0.as_str(), pair.1.as_str()) {
                Ok(w) => {
                    out.push(w);
                }
                Err(e) => {
                    proof {
                        lemma_settings_error_persists(entries, i as nat + 1);
                    }
                    return Err(e);
                }
            }
            i = i + 1;
        }
        proof {
            assert(entries.subrange(0, i as int) =~= entries);
        }
        Ok(out)
    }
}

proof fn lemma_settings_error_persists(entries: Seq<(Seq<char>, Seq<char>)>, n: nat)
    requires
        n <= entries.len(),
        affinity_settings(entries.subrange(0, n as int)) is Err,
    ensures
        affinity_settings(entries) == affinity_settings(entries.subrange(0, n as int)),
    decreases entries.len() - n,
{
    if n < entries.len() {
        assert(entries.subrange(0, n + 1 as int).drop_last() =~= entries.subrange(0, n as int));
        lemma_settings_error_persists(entries, n + 1);
    } else {
        assert(entries.subrange(0, n as int) =~= entries);
    }
}

/// A named set of interface settings.
#[derive(Debug, Default)]
pub struct Profile {
    pub name: String,
    pub network_interface: Vec<NetworkInterface>,
}

/// All profiles, in the order the configuration lists them.
#[derive(Debug, Default)]
pub struct Config {
    pub profile: Vec<Profile>,
}

/// Position of the first profile named `name`, if any.
pub open spec fn first_named(profiles: Seq<Profile>, name: Seq<char>) -> Option<int>
    decreases profiles.len(),
{
    if profiles.len() == 0 {
        None
    } else {
        match first_named(profiles.drop_last(), name) {
            Some(i) => Some(i),
            None => if profiles.last().name@ == name {
                Some(profiles.len() - 1)
            } else {
                None
            },
        }
    }
}

/// The lookup by name finds the earliest profile of that name: later profiles
/// of the same name are never chosen, and none is found only when no profile
/// has that name.
pub proof fn lemma_first_named(profiles: Seq<Profile>, name: Seq<char>)
    ensures
        match first_named(profiles, name) {
            Some(i) => 0 <= i < profiles.len() && profiles[i].name@ == name
                && forall|j: int| 0 <= j < i ==> #[trigger] profiles[j].name@ != name,
            None => forall|j: int| 0 <= j < profiles.len() ==> #[trigger] profiles[j].name@ != name,
        },
    decreases profiles.len(),
{
    if profiles.len() > 0 {
        let init = profiles.drop_last();
        lemma_first_named(init, name);
        assert forall|j: int| 0 <= j < init.len() implies init[j] == #[trigger] profiles[j] by {}
    }
}

impl Config {
    /// All profiles, in order.
    pub fn new(profile: Vec<Profile>) -> (r: Config)
        ensures
            r.profile@ == profile@,
    {
        Config { profile }
    }

    /// Position of the first profile named `name`.
    pub fn profile_index(&self, name: &str) -> (r: Option<usize>)
        ensures
            r matches Some(i) ==> first_named(self.profile@, name@) == Some(i as int),
            r is None ==> first_named(self.profile@, name@) is None,
            first_named(self.profile@, name@) matches Some(i) ==> r == Some(i as usize),
    {
        let wanted = String::from_str(name);
        let mut i: usize = 0;
        proof {
            lemma_first_named(self.profile@, name@);
        }
        while i < self.profile.len()
            invariant
                i <= self.profile.len(),
                wanted@ == name@,
                first_named(self.profile@.subrange(0, i as int), name@) is None,
            decreases self.profile.len() - i,
        {
            let ghost prefix = self.profile@.subrange(0, i + 1);
            proof {
                assert(prefix.drop_last() =~= self.profile@.subrange(0, i as int));
            }
            if self.profile[i].name == wanted {
                proof {
                    lemma_first_named_extends(self.profile@, i as int + 1, name@);
                }
                return Some(i);
            }
            i = i + 1;
        }
        proof {
            assert(self.profile@.subrange(0, i as int) =~= self.profile@);
        }
        None
    }

    /// The first profile named `name`, if any.
    pub fn profile(&self, name: &str) -> (r: Option<&Profile>)
        ensures
            match first_named(self.profile@, name@) {
                Some(i) => r == Some(&self.profile@[i]),
                None => r is None,
            },
    {
        proof {
            lemma_first_named(self.profile@, name@);
        }
        match self.profile_index(name) {
            Some(i) => Some(&self.profile[i]),
            None => None,
        }
    }
}

proof fn lemma_first_named_extends(profiles: Seq<Profile>, n: int, name: Seq<char>)
    requires
        0 <= n <= profiles.len(),
        first_named(profiles.subrange(0, n), name) is Some,
    ensures
        first_named(profiles, name) == first_named(profiles.subrange(0, n), name),
    decreases profiles.len() - n,
{
    if n < profiles.len() {
        assert(profiles.subrange(0, n + 1).drop_last() =~= profiles.subrange(0, n));
        lemma_first_named_extends(profiles, n + 1, name);
    } else {
        assert(profiles.subrange(0, n) =~= profiles);
    }
}

/// The message for a profile that the configuration at `path` lacks.
pub open spec fn missing_profile_text(name: Seq<char>, path: Seq<char>) -> Seq<char> {
    "profile: "@ + name + " was not found in the config: \""@ + path + "\""@
}

/// Says that no profile named `name` is in the configuration read from `path`.
pub fn missing_profile_message(name: &str, path: &str) -> (r: String)
    ensures
        r@ == missing_profile_text(name@, path@),
{
    let mut r = String::from_str("profile: ");
    r.append(name);
    r.append(" was not found in the config: \"");
    r.append(path);
    r.append("\"");
    r
}

} // verus!
