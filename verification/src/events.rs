use vstd::prelude::*;

verus! {

/// A struct whose events can be sent from the events tab: its name, the
/// names of its events and, at the same positions, what sends each event.
pub struct EventInfo<S> {
    pub struct_name: String,
    pub event_names: Vec<String>,
    pub event_senders: Vec<S>,
}

/// A click on an event button, waiting to be sent.
pub struct EventRequest {
    pub struct_name: String,
    pub event_name: String,
}

/// The state of the events tab.
pub struct EventsTabData {
    /// The event whose button was clicked last.
    pub button_clicked: Option<String>,
}

/// The first position, at `i` or later, of `name` among `names`.
pub open spec fn name_position_from(names: Seq<String>, name: Seq<char>, i: int) -> Option<int>
    decreases names.len() - i,
{
    if i < 0 || i >= names.len() {
        None
    } else if names[i]@ == name {
        Some(i)
    } else {
        name_position_from(names, name, i + 1)
    }
}

/// The sender of `info` for `request`: the one at the position of the first
/// event named like the request, when the struct names match and that
/// sender exists.
pub open spec fn sender_for<S>(info: EventInfo<S>, request: EventRequest) -> Option<int> {
    if info.struct_name@ != request.struct_name@ {
        None
    } else {
        match name_position_from(info.event_names@, request.event_name@, 0) {
            Some(j) => if j < info.event_senders@.len() {
                Some(j)
            } else {
                None
            },
            None => None,
        }
    }
}

/// The first registered struct, at `i` or later, that has a sender for the
/// request, with that sender's position.
pub open spec fn dispatch_from<S>(registry: Seq<EventInfo<S>>, request: EventRequest, i: int) -> Option<(int, int)>
    decreases registry.len() - i,
{
    if i < 0 || i >= registry.len() {
        None
    } else {
        match sender_for(registry[i], request) {
            Some(j) => Some((i, j)),
            None => dispatch_from(registry, request, i + 1),
        }
    }
}

/// The senders to call, in order, for the first `n` requests of the queue.
pub open spec fn dispatch_all<S>(registry: Seq<EventInfo<S>>, queue: Seq<EventRequest>, n: nat) -> Seq<(int, int)>
    decreases n,
{
    if n == 0 {
        Seq::empty()
    } else {
        let before = dispatch_all(registry, queue, (n - 1) as nat);
        match dispatch_from(registry, queue[n - 1], 0) {
            Some(pair) => before.push(pair),
            None => before,
        }
    }
}

/// Registers a struct's events with their senders.
pub fn register_ui_callable_events_with_senders<S>(
    registry: &mut Vec<EventInfo<S>>,
    struct_name: String,
    event_names: Vec<String>,
    event_senders: Vec<S>,
)
    ensures
        final(registry)@.len() == old(registry)@.len() + 1,
        forall|i: int| 0 <= i < old(registry)@.len() ==> final(registry)@[i] == old(registry)@[i],
        final(registry)@.last().struct_name == struct_name,
        final(registry)@.last().event_names == event_names,
        final(registry)@.last().event_senders == event_senders,
{
    registry.push(EventInfo { struct_name, event_names, event_senders });
}

/// Records a click on the button of event `event_name` of `struct_name`:
/// the request is queued and the tab remembers the click.
pub fn queue_event_request(
    queue: &mut Vec<EventRequest>,
    data: &mut EventsTabData,
    struct_name: &str,
    event_name: &str,
)
    ensures
        final(queue)@.len() == old(queue)@.len() + 1,
        forall|i: int| 0 <= i < old(queue)@.len() ==> final(queue)@[i] == old(queue)@[i],
        final(queue)@.last().struct_name@ == struct_name@,
        final(queue)@.last().event_name@ == event_name@,
        final(data).button_clicked matches Some(s) && s@ == event_name@,
{
    queue.push(EventRequest { struct_name: struct_name.to_owned(), event_name: event_name.to_owned() });
    data.button_clicked = Some(event_name.to_owned());
}

fn find_sender<S>(info: &EventInfo<S>, request: &EventRequest) -> (r: Option<usize>)
    ensures
        match r {
            Some(j) => sender_for(*info, *request) == Some(j as int),
            None => sender_for(*info, *request) is None,
        },
{
    if !(info.struct_name == request.struct_name) {
        return None;
    }
    let mut k: usize = 0;
    while k < info.event_names.len()
        invariant
            info.struct_name@ == request.struct_name@,
            k <= info.event_names@.len(),
            name_position_from(info.event_names@, request.event_name@, 0) == name_position_from(
                info.event_names@,
                request.event_name@,
                k as int,
            ),
        decreases info.event_names@.len() - k,
    {
        if info.event_names[k] == request.event_name {
            assert(name_position_from(info.event_names@, request.event_name@, k as int) == Some(k as int));
            if k < info.event_senders.len() {
                return Some(k);
            } else {
                return None;
            }
        }
        k = k + 1;
    }
    None
}

/// Sends the queued requests: for each, in order, the first registered
/// struct with a matching sender is picked; the queue is emptied. Returns
/// the positions (struct, event) of the senders to call.
pub fn send_queued_events<S>(registry: &Vec<EventInfo<S>>, queue: &mut Vec<EventRequest>) -> (dispatched: Vec<(usize, usize)>)
    ensures
        final(queue)@.len() == 0,
        dispatched@.map_values(|p: (usize, usize)| (p.0 as int, p.1 as int)) == dispatch_all(
            registry@,
            old(queue)@,
            old(queue)@.len(),
        ),
{
    let mut dispatched: Vec<(usize, usize)> = Vec::new();
    let mut q: usize = 0;
    while q < queue.len()
        invariant
            q <= queue@.len(),
            queue@ == old(queue)@,
            dispatched@.map_values(|p: (usize, usize)| (p.0 as int, p.1 as int)) == dispatch_all(
                registry@,
                queue@,
                q as nat,
            ),
        decreases queue@.len() - q,
    {
        let request = &queue[q];
        let mut i: usize = 0;
        let mut found: Option<(usize, usize)> = None;
        while i < registry.len()
            invariant_except_break
                found is None,
            invariant
                i <= registry@.len(),
                dispatch_from(registry@, *request, 0) == dispatch_from(registry@, *request, i as int),
            ensures
                match found {
                    Some((a, b)) => dispatch_from(registry@, *request, 0) == Some((a as int, b as int)),
                    None => dispatch_from(registry@, *request, 0) is None,
                },
            decreases registry@.len() - i,
        {
            match find_sender(&registry[i], request) {
                Some(j) => {
                    found = Some((i, j));
                    break;
                },
                None => {},
            }
            i = i + 1;
        }
        let ghost before = dispatched@;
        match found {
            Some(pair) => {
                dispatched.push(pair);
                assert(dispatched@.map_values(|p: (usize, usize)| (p.0 as int, p.1 as int)) =~= before.map_values(
                    |p: (usize, usize)| (p.0 as int, p.1 as int),
                ).push((pair.0 as int, pair.1 as int)));
            },
            None => {},
        }
        q = q + 1;
    }
    queue.clear();
    dispatched
}

/// Every dispatched pair names a registered struct and one of its senders,
/// and the struct's name and the event's name match the request.
pub proof fn law_dispatch_targets_exist<S>(registry: Seq<EventInfo<S>>, queue: Seq<EventRequest>, n: nat)
    requires
        n <= queue.len(),
    ensures
        forall|k: int|
            0 <= k < dispatch_all(registry, queue, n).len() ==> {
                let (i, j) = #[trigger] dispatch_all(registry, queue, n)[k];
                &&& 0 <= i < registry.len()
                &&& 0 <= j < registry[i].event_senders@.len()
                &&& j < registry[i].event_names@.len()
                &&& exists|r: int|
                    0 <= r < n && queue[r].struct_name@ == registry[i].struct_name@
                        && queue[r].event_name@ == registry[i].event_names@[j]@
            },
    decreases n,
{
    if n > 0 {
        let m = (n - 1) as nat;
        law_dispatch_targets_exist(registry, queue, m);
        let before = dispatch_all(registry, queue, m);
        let now = dispatch_all(registry, queue, n);
        lemma_dispatch_from_valid(registry, queue[m as int], 0);
        assert forall|k: int|
            0 <= k < now.len() implies {
                let (i, j) = #[trigger] now[k];
                &&& 0 <= i < registry.len()
                &&& 0 <= j < registry[i].event_senders@.len()
                &&& j < registry[i].event_names@.len()
                &&& exists|r: int|
                    0 <= r < n && queue[r].struct_name@ == registry[i].struct_name@
                        && queue[r].event_name@ == registry[i].event_names@[j]@
            } by {
            if k < before.len() {
                assert(now[k] == before[k]);
                let (i, j) = before[k];
                assert(i < registry.len());
                let r = choose|r: int|
                    0 <= r < m && queue[r].struct_name@ == registry[i].struct_name@
                        && queue[r].event_name@ == registry[i].event_names@[j]@;
                assert(0 <= r < n);
            } else {
                match dispatch_from(registry, queue[m as int], 0) {
                    Some((a, b)) => {
                        assert(now[k] == (a, b));
                        assert(0 <= m < n);
                    },
                    None => {},
                }
            }
        }
    }
}

proof fn lemma_name_position_valid(names: Seq<String>, name: Seq<char>, i: int)
    ensures
        name_position_from(names, name, i) matches Some(j) ==> 0 <= j < names.len() && names[j]@ == name,
    decreases names.len() - i,
{
    if 0 <= i < names.len() && names[i]@ != name {
        lemma_name_position_valid(names, name, i + 1);
    }
}

proof fn lemma_dispatch_from_valid<S>(registry: Seq<EventInfo<S>>, request: EventRequest, i: int)
    ensures
        dispatch_from(registry, request, i) matches Some((a, b)) ==> {
            &&& 0 <= a < registry.len()
            &&& 0 <= b < registry[a].event_senders@.len()
            &&& b < registry[a].event_names@.len()
            &&& registry[a].struct_name@ == request.struct_name@
            &&& registry[a].event_names@[b]@ == request.event_name@
        },
    decreases registry.len() - i,
{
    if 0 <= i < registry.len() {
        lemma_name_position_valid(registry[i].event_names@, request.event_name@, 0);
        if sender_for(registry[i], request) is None {
            lemma_dispatch_from_valid(registry, request, i + 1);
        }
    }
}

} // verus!
