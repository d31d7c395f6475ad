//! Pods and containers as the tables show them. Listing them is left to the caller, which
//! hands over what Kubernetes reported as plain values.
use crate::chars::{
    first_index_of, last_index_of, lemma_first_index_of, lemma_last_index_of, rfind_char,
    same_str, to_chars,
};
use crate::remote::{image_ref_of, opt_ref_view, ImageRef};
use crate::text::{decimal, decimal_string, duration_text, push_decimal, short_duration};
use vstd::prelude::*;

verus! {

pub struct MyContainer {
    pub name: String,
    pub image: String,
}

/// The image without the registry and project path: what follows the last `/`.
pub open spec fn short_image_of(image: Seq<char>) -> Seq<char> {
    let p = last_index_of(image, '/');
    if p >= 0 {
        image.skip(p + 1)
    } else {
        image
    }
}

/// The tag an image is pinned to: what follows the last `:` of the short image. An image
/// pinned by digest (`@sha256:…`) has none, and neither has one without a colon.
pub open spec fn tag_of(image: Seq<char>) -> Option<Seq<char>> {
    let short = short_image_of(image);
    if first_index_of(short, '@') >= 0 {
        None
    } else {
        let c = last_index_of(short, ':');
        if c >= 0 {
            Some(short.skip(c + 1))
        } else {
            None
        }
    }
}

impl MyContainer {
    pub fn new(name: String, image: String) -> (r: MyContainer)
        ensures
            r.name == name,
            r.image == image,
    {
        MyContainer { name, image }
    }

    /// Image without the registry and project path, e.g. `usage-api:24e8b66c-5409306`.
    pub fn short_image(&self) -> (r: &str)
        ensures
            r@ == short_image_of(self.image@),
    {
        let v = to_chars(self.image.as_str());
        let vs = v.as_slice();
        assert(vs@ == v@);
        proof {
            lemma_last_index_of(vs@, '/');
        }
        match rfind_char(vs, '/') {
            Some(p) => {
                assert(p < vs@.len());
                let r = self.image.as_str().substring_char(p + 1, v.len());
                assert(r@ =~= self.image@.skip(p + 1));
                r
            },
            None => self.image.as_str(),
        }
    }

    /// Tag the image is pinned to, e.g. `24e8b66c-5409306`.
    ///
    /// `None` for an image pinned by digest, where the part after the colon is the digest
    /// rather than a tag.
    pub fn tag(&self) -> (r: Option<&str>)
        ensures
            match r {
                Some(t) => tag_of(self.image@) == Some(t@),
                None => tag_of(self.image@) is None,
            },
    {
        let image = self.short_image();
        let v = to_chars(image);
        let vs = v.as_slice();
        assert(vs@ == v@);
        assert(vs@.subrange(0, vs@.len() as int) =~= vs@);
        proof {
            lemma_first_index_of(vs@, '@');
            lemma_last_index_of(vs@, ':');
        }
        if crate::chars::find_char(vs, 0, vs.len(), '@').is_some() {
            return None;
        }
        match rfind_char(vs, ':') {
            Some(c) => {
                let r = image.substring_char(c + 1, v.len());
                assert(r@ =~= image@.skip(c + 1));
                Some(r)
            },
            None => None,
        }
    }

    /// What the image was built from, as far as the tag tells.
    pub fn image_ref(&self) -> (r: Option<ImageRef>)
        ensures
            opt_ref_view(r) == match tag_of(self.image@) {
                Some(t) => image_ref_of(t),
                None => None,
            },
    {
        match self.tag() {
            Some(t) => ImageRef::from_image_tag(t),
            None => None,
        }
    }
}

pub struct MyPod {
    pub name: String,
    pub namespace: String,
    pub containers: Vec<MyContainer>,
    /// What `kubectl get pods` would say in its STATUS column.
    pub status: String,
    pub restarts: i32,
    /// Containers reported ready.
    pub ready: usize,
    /// When the pod was created, in seconds since the epoch.
    pub created: Option<i64>,
    /// The pod has run its course, as a CronJob's pods do.
    pub finished: bool,
}

/// `ready/total`, the way `kubectl` shows readiness.
pub open spec fn readiness_text(ready: nat, total: nat) -> Seq<char> {
    decimal(ready) + seq!['/'] + decimal(total)
}

/// Seconds from `created` to `now`, kept within `i64`.
pub open spec fn elapsed(now: i64, created: i64) -> int {
    let d = now - created;
    if d > i64::MAX {
        i64::MAX as int
    } else if d < i64::MIN {
        i64::MIN as int
    } else {
        d
    }
}

/// A phase after which a pod runs nothing any more.
pub open spec fn is_finished_phase(phase: Seq<char>) -> bool {
    phase == "Succeeded"@ || phase == "Failed"@
}

/// A status shown without alarm.
pub open spec fn is_calm_status(status: Seq<char>) -> bool {
    status == "Running"@ || status == "Completed"@ || status == "Succeeded"@
}

/// Whether a pod in `status` is going about its business: running, or done.
pub fn is_calm(status: &str) -> (r: bool)
    ensures
        r == is_calm_status(status@),
{
    same_str(status, "Running") || same_str(status, "Completed") || same_str(status, "Succeeded")
}

/// Whether a pod in `phase` has run its course.
pub fn finished_phase(phase: &str) -> (r: bool)
    ensures
        r == is_finished_phase(phase@),
{
    same_str(phase, "Succeeded") || same_str(phase, "Failed")
}

/// What the STATUS column says of a pod: why a container is not running when one says so,
/// otherwise the pod's phase.
pub open spec fn status_spec(phase: Option<Seq<char>>, reason: Option<Seq<char>>) -> Seq<char> {
    match reason {
        Some(r) => r,
        None => match phase {
            Some(p) => p,
            None => "Unknown"@,
        },
    }
}

/// What the STATUS column says of a pod with `phase`, one of whose containers is held up
/// for `reason` when it is.
pub fn status_text(phase: &Option<String>, reason: &Option<String>) -> (r: String)
    ensures
        r@ == status_spec(
            crate::remote::opt_str_view(*phase),
            crate::remote::opt_str_view(*reason),
        ),
{
    match reason {
        Some(r) => r.clone(),
        None => match phase {
            Some(p) => p.clone(),
            None => String::from_str("Unknown"),
        },
    }
}

/// What the cluster reports of one container of a pod: whether it is waiting, and why
/// if it says; whether it has stopped, and why if it says; whether it is ready.
pub struct ContainerState {
    pub waiting: Option<Option<String>>,
    pub terminated: Option<Option<String>>,
    pub ready: bool,
}

/// The reason a container gives for not running: why it waits, when it waits; why it
/// stopped, when it stopped while its pod still runs.
pub open spec fn container_reason(s: ContainerState, running: bool) -> Option<Seq<char>> {
    match s.waiting {
        Some(why) => crate::remote::opt_str_view(why),
        None => match s.terminated {
            Some(why) => if running {
                crate::remote::opt_str_view(why)
            } else {
                None
            },
            None => None,
        },
    }
}

/// The first reason any of `states` gives.
pub open spec fn first_reason(states: Seq<ContainerState>, running: bool) -> Option<Seq<char>>
    decreases states.len(),
{
    if states.len() == 0 {
        None
    } else {
        match first_reason(states.drop_last(), running) {
            Some(r) => Some(r),
            None => container_reason(states.last(), running),
        }
    }
}

/// How many of `states` are ready.
pub open spec fn ready_in(states: Seq<ContainerState>) -> nat
    decreases states.len(),
{
    if states.len() == 0 {
        0
    } else {
        ready_in(states.drop_last()) + if states.last().ready {
            1nat
        } else {
            0nat
        }
    }
}

/// Whether a pod's phase is `Running`.
pub open spec fn is_running_phase(phase: Option<Seq<char>>) -> bool {
    phase == Some("Running"@)
}

fn clone_reason(why: &Option<String>) -> (r: Option<String>)
    ensures
        crate::remote::opt_str_view(r) == crate::remote::opt_str_view(*why),
{
    match why {
        Some(s) => Some(s.clone()),
        None => None,
    }
}

/// Why a container of the pod is not running, as the STATUS column shows it: the first
/// container that waits and says why, or that stopped and says why while the pod is
/// `Running`.
pub fn status_reason(states: &Vec<ContainerState>, phase: &Option<String>) -> (r: Option<String>)
    ensures
        crate::remote::opt_str_view(r) == first_reason(
            states@,
            is_running_phase(crate::remote::opt_str_view(*phase)),
        ),
{
    let running = match phase {
        Some(p) => same_str(p.as_str(), "Running"),
        None => false,
    };
    proof {
        reveal_strlit("Running");
    }
    let ghost want = is_running_phase(crate::remote::opt_str_view(*phase));
    assert(running == want);
    let mut i: usize = 0;
    while i < states.len()
        invariant
            i <= states@.len(),
            running == want,
            want == is_running_phase(crate::remote::opt_str_view(*phase)),
            first_reason(states@.take(i as int), want) is None,
        decreases states@.len() - i,
    {
        assert(states@.take(i + 1).drop_last() =~= states@.take(i as int));
        let s = &states[i];
        let found = match &s.waiting {
            Some(why) => clone_reason(why),
            None => match &s.terminated {
                Some(why) => if running {
                    clone_reason(why)
                } else {
                    None
                },
                None => None,
            },
        };
        assert(crate::remote::opt_str_view(found) == container_reason(states@[i as int], want));
        assert(states@.take(i + 1).last() == states@[i as int]);
        assert(first_reason(states@.take(i + 1), want) == container_reason(states@[i as int], want));
        if found.is_some() {
            proof {
                lemma_first_reason_prefix(states@, want, i as int + 1);
            }
            return found;
        }
        i += 1;
    }
    assert(states@.take(i as int) =~= states@);
    None
}

/// A reason found among the first `n` states is the first reason of them all.
proof fn lemma_first_reason_prefix(states: Seq<ContainerState>, running: bool, n: int)
    requires
        0 <= n <= states.len(),
        first_reason(states.take(n), running) is Some,
    ensures
        first_reason(states, running) == first_reason(states.take(n), running),
    decreases states.len() - n,
{
    if n < states.len() {
        assert(states.take(n + 1).drop_last() =~= states.take(n));
        lemma_first_reason_prefix(states, running, n + 1);
    } else {
        assert(states.take(n) =~= states);
    }
}

/// How many containers of the pod are ready.
pub fn ready_count(states: &Vec<ContainerState>) -> (r: usize)
    ensures
        r == ready_in(states@),
{
    let mut count: usize = 0;
    let mut i: usize = 0;
    while i < states.len()
        invariant
            i <= states@.len(),
            count <= i,
            count == ready_in(states@.take(i as int)),
        decreases states@.len() - i,
    {
        assert(states@.take(i + 1).drop_last() =~= states@.take(i as int));
        if states[i].ready {
            count += 1;
        }
        i += 1;
    }
    assert(states@.take(i as int) =~= states@);
    count
}

/// Restarts of all containers together, capped at what an `i32` holds.
pub open spec fn restart_total(counts: Seq<i32>) -> int
    decreases counts.len(),
{
    if counts.len() == 0 {
        0
    } else {
        let prev = restart_total(counts.drop_last());
        let sum = prev + counts.last();
        if sum > i32::MAX {
            i32::MAX as int
        } else if sum < i32::MIN {
            i32::MIN as int
        } else {
            sum
        }
    }
}

/// Restarts of all containers together, capped at what an `i32` holds.
pub fn total_restarts(counts: &[i32]) -> (r: i32)
    ensures
        r == restart_total(counts@),
{
    let mut total: i32 = 0;
    let mut i: usize = 0;
    while i < counts.len()
        invariant
            i <= counts@.len(),
            total == restart_total(counts@.take(i as int)),
        decreases counts@.len() - i,
    {
        assert(counts@.take(i + 1).drop_last() =~= counts@.take(i as int));
        let sum = total as i64 + counts[i] as i64;
        total = if sum > i32::MAX as i64 {
            i32::MAX
        } else if sum < i32::MIN as i64 {
            i32::MIN
        } else {
            sum as i32
        };
        i += 1;
    }
    assert(counts@.take(counts@.len() as int) =~= counts@);
    total
}

impl MyPod {
    /// A pod known only by its name, namespace and containers.
    pub fn new(name: String, namespace: String, containers: Vec<MyContainer>) -> (r: MyPod)
        ensures
            r.name == name,
            r.namespace == namespace,
            r.containers == containers,
            r.status@.len() == 0,
            r.restarts == 0,
            r.ready == 0,
            r.created is None,
            !r.finished,
    {
        MyPod {
            name,
            namespace,
            containers,
            status: String::new(),
            restarts: 0,
            ready: 0,
            created: None,
            finished: false,
        }
    }

    /// How many containers are ready out of how many, e.g. `1/2`.
    pub fn readiness(&self) -> (r: String)
        ensures
            r@ == readiness_text(self.ready as nat, self.containers@.len()),
    {
        let mut out = decimal_string(self.ready as u64);
        crate::chars::push_char(&mut out, '/');
        push_decimal(&mut out, self.containers.len() as u64);
        assert(out@ =~= readiness_text(self.ready as nat, self.containers@.len()));
        out
    }

    /// How long the pod has been around at `now`, seconds since the epoch.
    pub fn age(&self, now: i64) -> (r: Option<String>)
        ensures
            match (r, self.created) {
                (Some(text), Some(created)) => text@ == duration_text(elapsed(now, created)),
                (None, None) => true,
                _ => false,
            },
    {
        match self.created {
            Some(created) => {
                let d = (now as i128) - (created as i128);
                let secs: i64 = if d > i64::MAX as i128 {
                    i64::MAX
                } else if d < i64::MIN as i128 {
                    i64::MIN
                } else {
                    d as i64
                };
                Some(short_duration(secs))
            },
            None => None,
        }
    }
}

} // verus!
