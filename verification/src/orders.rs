//! Order bookkeeping decisions: client order ids, status classes, which
//! open orders block a new one, and the messages of the wait helpers.
use crate::text::{
    ascii_lower_seq, chars_eq, chars_of, concat_chars, lower_chars, nat_digits, starts_with_exec,
    all_digits, starts_with_seq, string_from_chars, u128_digits,
};
use vstd::prelude::*;

verus! {

/// Reads the system clock as nanoseconds since the Unix epoch
/// (`SystemTime::now().duration_since(UNIX_EPOCH)`), `None` when the clock is
/// before the epoch. The time is not a function of anything, so nothing is
/// claimed of it.
#[verifier::external_body]
fn unix_time_nanos() -> (r: Option<u128>) {
    match std::time::SystemTime::now().duration_since(std::time::UNIX_EPOCH) {
        Ok(d) => Some(d.as_nanos()),
        Err(_) => None,
    }
}

/// A client order id: the prefix (`example` when empty), a `-`, and the
/// decimal digits of the time stamp.
pub open spec fn client_order_id_spec(prefix: Seq<char>, nanos: nat) -> Seq<char> {
    (if prefix.len() == 0 {
        "example"@
    } else {
        prefix
    }) + "-"@ + nat_digits(nanos)
}

/// The client order id for a prefix and a time stamp in nanoseconds.
pub fn client_order_id_with_stamp(prefix: &str, nanos: u128) -> (r: String)
    ensures
        r@ == client_order_id_spec(prefix@, nanos as nat),
{
    let p = if prefix.unicode_len() == 0 {
        chars_of("example")
    } else {
        chars_of(prefix)
    };
    let dash = chars_of("-");
    let v = concat_chars(&concat_chars(&p, &dash), &u128_digits(nanos));
    string_from_chars(&v)
}

/// The time stamp of a clock reading: the nanoseconds since the Unix epoch,
/// 0 when the clock is before it.
pub open spec fn stamp_of(reading: Option<u128>) -> nat {
    match reading {
        Some(n) => n as nat,
        None => 0,
    }
}

/// The client order id for a prefix and a clock reading (nanoseconds since
/// the Unix epoch, `None` when the clock is before it): the stamp is 0 then.
pub fn client_order_id_for_reading(prefix: &str, reading: Option<u128>) -> (r: String)
    ensures
        r@ == client_order_id_spec(prefix@, stamp_of(reading)),
{
    let nanos = match reading {
        Some(n) => n,
        None => 0,
    };
    client_order_id_with_stamp(prefix, nanos)
}

/// A client order id made unique by the current time: the prefix (`example`
/// when empty), a `-`, and the nanoseconds since the Unix epoch (0 when the
/// clock is before it). The clock is read here, so which stamp is used is
/// not stated; `client_order_id_for_reading` states the id for each reading.
pub fn unique_client_order_id(prefix: &str) -> (r: String)
    ensures
        exists|reading: Option<u128>| r@ == client_order_id_spec(prefix@, stamp_of(reading)),
{
    let reading = unix_time_nanos();
    client_order_id_for_reading(prefix, reading)
}

/// How an order status reads once lower-cased.
#[derive(Clone, Copy, Debug, PartialEq, Eq, Structural)]
pub enum StatusClass {
    /// `""`, `pending`, `working` or `pending_cancel`.
    Open,
    /// `canceled`, `rejected` or `filled`.
    Terminal,
    /// Anything else.
    Other,
}

/// The class of a lower-cased status.
pub open spec fn status_class_spec(lower: Seq<char>) -> StatusClass {
    if lower == ""@ || lower == "pending"@ || lower == "working"@ || lower == "pending_cancel"@ {
        StatusClass::Open
    } else if lower == "canceled"@ || lower == "rejected"@ || lower == "filled"@ {
        StatusClass::Terminal
    } else {
        StatusClass::Other
    }
}

/// The class of an order status (compared in ASCII lower case).
pub fn classify_status(status: &str) -> (r: StatusClass)
    ensures
        r == status_class_spec(ascii_lower_seq(status@)),
{
    let l = lower_chars(&chars_of(status));
    if chars_eq(&l, &chars_of("")) || chars_eq(&l, &chars_of("pending")) || chars_eq(
        &l,
        &chars_of("working"),
    ) || chars_eq(&l, &chars_of("pending_cancel")) {
        StatusClass::Open
    } else if chars_eq(&l, &chars_of("canceled")) || chars_eq(&l, &chars_of("rejected"))
        || chars_eq(&l, &chars_of("filled")) {
        StatusClass::Terminal
    } else {
        StatusClass::Other
    }
}

/// A status in ASCII lower case (as the wait helpers report it).
pub fn lower_status(status: &str) -> (r: String)
    ensures
        r@ == ascii_lower_seq(status@),
{
    string_from_chars(&lower_chars(&chars_of(status)))
}

/// What the wait for an open order does after looking the order up.
#[derive(Debug, PartialEq, Eq)]
pub enum LookupStep {
    /// Hand back the order that was found.
    ReturnOrder,
    /// Keep waiting, remembering this last status.
    KeepWaiting { last_status: String },
}

/// After a lookup by client order id: an order whose status is open or
/// terminal is handed back; otherwise its lower-cased status becomes the
/// last status; without an order the last status is kept.
pub open spec fn lookup_step_spec(last_status: Seq<char>, fetched_status: Option<Seq<char>>) -> Option<
    Seq<char>,
> {
    match fetched_status {
        Some(s) => match status_class_spec(ascii_lower_seq(s)) {
            StatusClass::Other => Some(ascii_lower_seq(s)),
            _ => None,
        },
        None => Some(last_status),
    }
}

/// The decision of `wait_for_open_order` after one lookup by client order
/// id (`fetched_status` is the status of the order found, if any).
pub fn open_order_lookup_step(last_status: &str, fetched_status: Option<&str>) -> (r: LookupStep)
    ensures
        match lookup_step_spec(last_status@, match fetched_status {
            Some(s) => Some(s@),
            None => None,
        }) {
            Some(l) => r matches LookupStep::KeepWaiting { last_status: k } && k@ == l,
            None => r == LookupStep::ReturnOrder,
        },
{
    match fetched_status {
        Some(s) => match classify_status(s) {
            StatusClass::Other => LookupStep::KeepWaiting { last_status: lower_status(s) },
            _ => LookupStep::ReturnOrder,
        },
        None => LookupStep::KeepWaiting { last_status: String::from_str(last_status) },
    }
}

/// The status `cancel_after_timeout` reports without cancelling: the
/// lower-cased status of an order that is already terminal.
pub fn terminal_status(status: &str) -> (r: Option<String>)
    ensures
        match r {
            Some(l) => l@ == ascii_lower_seq(status@) && status_class_spec(ascii_lower_seq(status@))
                == StatusClass::Terminal,
            None => status_class_spec(ascii_lower_seq(status@)) != StatusClass::Terminal,
        },
{
    match classify_status(status) {
        StatusClass::Terminal => Some(lower_status(status)),
        _ => None,
    }
}

/// The message when an order never showed up as open.
pub open spec fn not_visible_text(
    client_order_id: Seq<char>,
    timeout_text: Seq<char>,
    last_status: Seq<char>,
) -> Seq<char> {
    "order "@ + client_order_id + " was not visible as open within "@ + timeout_text + "s"@ + (
    if last_status.len() == 0 {
        Seq::empty()
    } else {
        " (last status="@ + last_status + ")"@
    })
}

/// The message when an order never showed up as open; `timeout_text` is the
/// timeout in whole seconds as the caller writes it.
pub fn not_visible_message(client_order_id: &str, timeout_text: &str, last_status: &str) -> (r:
    String)
    ensures
        r@ == not_visible_text(client_order_id@, timeout_text@, last_status@),
{
    let mut v = concat_chars(&chars_of("order "), &chars_of(client_order_id));
    v = concat_chars(&v, &chars_of(" was not visible as open within "));
    v = concat_chars(&v, &chars_of(timeout_text));
    v = concat_chars(&v, &chars_of("s"));
    if last_status.unicode_len() > 0 {
        v = concat_chars(&v, &chars_of(" (last status="));
        v = concat_chars(&v, &chars_of(last_status));
        v = concat_chars(&v, &chars_of(")"));
    }
    assert(v@ =~= not_visible_text(client_order_id@, timeout_text@, last_status@));
    string_from_chars(&v)
}

/// The message when an order is still open after the timeout.
pub fn still_open_message(client_order_id: &str, timeout_text: &str) -> (r: String)
    ensures
        r@ == "order "@ + client_order_id@ + " still open after "@ + timeout_text@ + "s"@,
{
    let mut v = concat_chars(&chars_of("order "), &chars_of(client_order_id));
    v = concat_chars(&v, &chars_of(" still open after "));
    v = concat_chars(&v, &chars_of(timeout_text));
    v = concat_chars(&v, &chars_of("s"));
    string_from_chars(&v)
}

/// The index of the first listed order whose client order id is `id`.
pub fn find_client_order_id(ids: &[String], id: &str) -> (r: Option<usize>)
    ensures
        match r {
            Some(i) => i < ids@.len() && ids@[i as int]@ == id@ && forall|j: int|
                0 <= j < i ==> (#[trigger] ids@[j])@ != id@,
            None => forall|j: int| 0 <= j < ids@.len() ==> (#[trigger] ids@[j])@ != id@,
        },
{
    let want = chars_of(id);
    for i in 0..ids.len()
        invariant
            want@ == id@,
            forall|j: int| 0 <= j < i ==> (#[trigger] ids@[j])@ != id@,
    {
        if chars_eq(&chars_of(ids[i].as_str()), &want) {
            return Some(i);
        }
    }
    None
}

/// What the wait for an open order does next within one polling round.
#[derive(Debug, PartialEq, Eq)]
pub enum OpenWaitAction {
    /// List the open orders and look for the client order id there.
    ListOpen,
    /// Hand back the order the lookup by client order id found.
    ReturnFetched,
    /// Hand back the listed open order at this index.
    ReturnListed { index: usize },
    /// Sleep for the poll interval, then start the next round with a lookup.
    Sleep,
}

/// What a call of the wait for an open order gave.
pub enum OpenWaitEvent {
    /// The lookup by client order id: the status of the order it found
    /// (`None` when it found none or failed).
    Fetched { status: Option<String> },
    /// The listing of open orders: their client order ids (`None` when it
    /// failed).
    Listed { ids: Option<Vec<String>> },
}

/// The index of the first id equal to `id`.
pub open spec fn first_index_of(ids: Seq<String>, id: Seq<char>) -> Option<int> {
    if exists|j: int| 0 <= j < ids.len() && (#[trigger] ids[j])@ == id {
        Some(
            choose|j: int|
                0 <= j < ids.len() && ids[j]@ == id && forall|k: int|
                    0 <= k < j ==> (#[trigger] ids[k])@ != id,
        )
    } else {
        None
    }
}

/// One step of the wait for an open order, from the last status seen and
/// what the last call gave to the next action and last status. Each round
/// first looks the order up by client order id: an order whose status is
/// open or terminal is handed back; otherwise (keeping its lower-cased status
/// as the last status) the open orders are listed, and the first with the
/// client order id is handed back; otherwise the wait sleeps.
pub open spec fn open_wait_step_spec(
    last_status: Seq<char>,
    client_order_id: Seq<char>,
    event: OpenWaitEvent,
) -> (OpenWaitAction, Seq<char>) {
    match event {
        OpenWaitEvent::Fetched { status } => match lookup_step_spec(
            last_status,
            match status {
                Some(s) => Some(s@),
                None => None,
            },
        ) {
            Some(l) => (OpenWaitAction::ListOpen, l),
            None => (OpenWaitAction::ReturnFetched, last_status),
        },
        OpenWaitEvent::Listed { ids } => match ids {
            Some(v) => match first_index_of(v@, client_order_id) {
                Some(i) => (OpenWaitAction::ReturnListed { index: i as usize }, last_status),
                None => (OpenWaitAction::Sleep, last_status),
            },
            None => (OpenWaitAction::Sleep, last_status),
        },
    }
}

/// The decision of `wait_for_open_order` after each call it makes.
pub fn open_wait_step(last_status: &str, client_order_id: &str, event: &OpenWaitEvent) -> (r: (
    OpenWaitAction,
    String,
))
    ensures
        (r.0, r.1@) == open_wait_step_spec(last_status@, client_order_id@, *event),
{
    match event {
        OpenWaitEvent::Fetched { status } => {
            let fetched = match status {
                Some(s) => Some(s.as_str()),
                None => None,
            };
            match open_order_lookup_step(last_status, fetched) {
                LookupStep::ReturnOrder => (OpenWaitAction::ReturnFetched, String::from_str(last_status)),
                LookupStep::KeepWaiting { last_status: l } => (OpenWaitAction::ListOpen, l),
            }
        },
        OpenWaitEvent::Listed { ids } => match ids {
            Some(v) => match find_client_order_id(v.as_slice(), client_order_id) {
                Some(i) => {
                    proof {
                        let ghost j = choose|j: int|
                            0 <= j < v@.len() && v@[j]@ == client_order_id@ && forall|k: int|
                                0 <= k < j ==> (#[trigger] v@[k])@ != client_order_id@;
                        assert(v@[i as int]@ == client_order_id@);
                        assert(exists|j: int|
                            0 <= j < v@.len() && (#[trigger] v@[j])@ == client_order_id@);
                        if j < i {
                            assert(v@[j]@ != client_order_id@);
                        }
                        if i < j {
                            assert(v@[i as int]@ != client_order_id@);
                        }
                    }
                    (OpenWaitAction::ReturnListed { index: i }, String::from_str(last_status))
                },
                None => (OpenWaitAction::Sleep, String::from_str(last_status)),
            },
            None => (OpenWaitAction::Sleep, String::from_str(last_status)),
        },
    }
}

/// After one listing of open orders in the wait for an order to close: the
/// order counts as no longer open when the listing failed (`None`) or lists
/// no order with its client order id.
pub fn no_open_after_poll(ids: Option<&[String]>, id: &str) -> (r: bool)
    ensures
        r == match ids {
            None => true,
            Some(v) => forall|j: int| 0 <= j < v@.len() ==> (#[trigger] v@[j])@ != id@,
        },
{
    match ids {
        None => true,
        Some(v) => find_client_order_id(v, id).is_none(),
    }
}

/// A cancel goes by order id when one is known (not empty and not `0`),
/// else by client order id.
pub fn cancels_by_order_id(order_id: &str) -> (r: bool)
    ensures
        r == (order_id@.len() > 0 && order_id@ != "0"@),
{
    let o = chars_of(order_id);
    o.len() > 0 && !chars_eq(&o, &chars_of("0"))
}

/// The listed ids that begin with `prefix`, in order.
pub open spec fn ids_with_prefix(ids: Seq<String>, prefix: Seq<char>) -> Seq<Seq<char>>
    decreases ids.len(),
{
    if ids.len() == 0 {
        Seq::empty()
    } else {
        let rest = ids_with_prefix(ids.drop_last(), prefix);
        if starts_with_seq(ids.last()@, prefix) {
            rest.push(ids.last()@)
        } else {
            rest
        }
    }
}

/// The texts joined with `, ` between them.
pub open spec fn join_comma(parts: Seq<Seq<char>>) -> Seq<char>
    decreases parts.len(),
{
    if parts.len() == 0 {
        Seq::empty()
    } else if parts.len() == 1 {
        parts[0]
    } else {
        join_comma(parts.drop_last()) + ", "@ + parts.last()
    }
}

/// What the check before a new bot order decides: refuse, naming the open
/// orders whose client id begins with the prefix, when there are any.
pub open spec fn prefix_check_spec(ids: Seq<String>, prefix: Seq<char>) -> Result<(), Seq<char>> {
    let m = ids_with_prefix(ids, prefix);
    if m.len() == 0 {
        Ok(())
    } else {
        Err("refusing to place a new order; open bot orders exist: "@ + join_comma(m))
    }
}

/// Refuses a new bot order while open orders with the bot's client id
/// prefix exist (the decision of `ensure_no_open_orders_with_prefix`).
pub fn check_no_open_orders_with_prefix(ids: &[String], prefix: &str) -> (r: Result<(), String>)
    ensures
        match r {
            Ok(()) => prefix_check_spec(ids@, prefix@) == Ok::<(), Seq<char>>(()),
            Err(m) => prefix_check_spec(ids@, prefix@) == Err::<(), Seq<char>>(m@),
        },
{
    let p = chars_of(prefix);
    let mut joined: Vec<char> = Vec::new();
    let mut count: usize = 0;
    for i in 0..ids.len()
        invariant
            p@ == prefix@,
            count as nat == ids_with_prefix(ids@.subrange(0, i as int), prefix@).len(),
            joined@ == join_comma(ids_with_prefix(ids@.subrange(0, i as int), prefix@)),
    {
        let ghost pre = ids@.subrange(0, i as int);
        let ghost pre1 = ids@.subrange(0, i + 1);
        assert(pre1.drop_last() =~= pre);
        assert(pre1.last() == ids@[i as int]);
        let id = chars_of(ids[i].as_str());
        let ghost rest = ids_with_prefix(pre, prefix@);
        if starts_with_exec(&id, &p) {
            assert(ids_with_prefix(pre1, prefix@) == rest.push(id@));
            assert(rest.push(id@).drop_last() =~= rest);
            assert(rest.push(id@).last() == id@);
            assert(rest.len() == 0 ==> rest.push(id@)[0] == id@);
            if count > 0 {
                joined = concat_chars(&joined, &chars_of(", "));
            }
            joined = concat_chars(&joined, &id);
            assert(count < usize::MAX) by {
                lemma_ids_with_prefix_len(pre, prefix@);
            }
            count = count + 1;
        }
        assert(joined@ =~= join_comma(ids_with_prefix(pre1, prefix@)));
    }
    assert(ids@.subrange(0, ids.len() as int) =~= ids@);
    if count == 0 {
        return Ok(());
    }
    let msg = concat_chars(&chars_of("refusing to place a new order; open bot orders exist: "), &joined);
    Err(string_from_chars(&msg))
}

proof fn lemma_ids_with_prefix_len(ids: Seq<String>, prefix: Seq<char>)
    ensures
        ids_with_prefix(ids, prefix).len() <= ids.len(),
    decreases ids.len(),
{
    if ids.len() > 0 {
        lemma_ids_with_prefix_len(ids.drop_last(), prefix);
    }
}

/// The outcome reported after cancelling an order that timed out.
pub fn cancel_outcome(confirmed: bool) -> (r: String)
    ensures
        r@ == (if confirmed {
            "canceled_after_timeout"@
        } else {
            "canceled_after_timeout_unconfirmed"@
        }),
{
    if confirmed {
        String::from_str("canceled_after_timeout")
    } else {
        String::from_str("canceled_after_timeout_unconfirmed")
    }
}

proof fn lemma_ids_with_prefix_empty(ids: Seq<String>, prefix: Seq<char>)
    ensures
        ids_with_prefix(ids, prefix).len() == 0 <==> forall|i: int|
            0 <= i < ids.len() ==> !starts_with_seq((#[trigger] ids[i])@, prefix),
    decreases ids.len(),
{
    if ids.len() > 0 {
        lemma_ids_with_prefix_empty(ids.drop_last(), prefix);
        let d = ids.drop_last();
        if ids_with_prefix(ids, prefix).len() == 0 {
            assert forall|i: int| 0 <= i < ids.len() implies !starts_with_seq(
                (#[trigger] ids[i])@,
                prefix,
            ) by {
                if i < d.len() {
                    assert(ids[i] == d[i]);
                }
            }
        } else {
            if !starts_with_seq(ids.last()@, prefix) {
                let j = choose|j: int| 0 <= j < d.len() && starts_with_seq((#[trigger] d[j])@, prefix);
                assert(ids[j] == d[j]);
            }
        }
    }
}

/// A new bot order is refused exactly when some open order's client id
/// begins with the bot's prefix.
pub proof fn lemma_prefix_check_refuses_iff_match(ids: Seq<String>, prefix: Seq<char>)
    ensures
        prefix_check_spec(ids, prefix) is Err <==> exists|i: int|
            0 <= i < ids.len() && starts_with_seq((#[trigger] ids[i])@, prefix),
{
    lemma_ids_with_prefix_empty(ids, prefix);
}

/// The prefix a client order id begins with: the given one, `example` when
/// it is empty.
pub open spec fn id_prefix(prefix: Seq<char>) -> Seq<char> {
    if prefix.len() == 0 {
        "example"@
    } else {
        prefix
    }
}

/// A client order id is the prefix (`example` when empty), a `-`, and the
/// ASCII digits of its stamp; ids made with one prefix for different stamps
/// differ.
pub proof fn lemma_client_order_id_shape(prefix: Seq<char>, n: nat, m: nat)
    ensures
        starts_with_seq(client_order_id_spec(prefix, n), id_prefix(prefix) + "-"@),
        client_order_id_spec(prefix, n).subrange(
            id_prefix(prefix).len() as int + 1,
            client_order_id_spec(prefix, n).len() as int,
        ) == nat_digits(n),
        all_digits(nat_digits(n)),
        n != m ==> client_order_id_spec(prefix, n) != client_order_id_spec(prefix, m),
{
    let p = id_prefix(prefix);
    let a = client_order_id_spec(prefix, n);
    let b = client_order_id_spec(prefix, m);
    let k = p.len() + 1;
    reveal_strlit("-");
    assert(a =~= (p + "-"@) + nat_digits(n));
    assert(b =~= (p + "-"@) + nat_digits(m));
    assert(a.subrange(0, k as int) =~= p + "-"@);
    assert(a.subrange(k as int, a.len() as int) =~= nat_digits(n));
    assert(b.subrange(k as int, b.len() as int) =~= nat_digits(m));
    crate::text::lemma_nat_digits_value(n);
    crate::text::lemma_nat_digits_value(m);
}

/// An open order carrying an id made for a prefix blocks a new bot order
/// under that prefix (`example` when empty): ids made for cleanup are the
/// ones the check before a new order finds.
pub proof fn lemma_prefix_check_catches_own_ids(ids: Seq<String>, prefix: Seq<char>, n: nat, i: int)
    requires
        0 <= i < ids.len(),
        ids[i]@ == client_order_id_spec(prefix, n),
    ensures
        prefix_check_spec(ids, id_prefix(prefix)) is Err,
{
    let p = id_prefix(prefix);
    let a = client_order_id_spec(prefix, n);
    assert(a =~= (p + "-"@) + nat_digits(n));
    assert(a.subrange(0, p.len() as int) =~= p);
    assert(starts_with_seq(ids[i]@, p));
    lemma_prefix_check_refuses_iff_match(ids, p);
}

/// Order statuses are compared in ASCII lower case: an order is terminal
/// exactly when its status reads `canceled`, `rejected` or `filled`, and
/// open exactly when it reads empty, `pending`, `working` or
/// `pending_cancel`; the case of its letters never matters.
pub proof fn lemma_status_classes(status: Seq<char>)
    ensures
        status_class_spec(ascii_lower_seq(status)) == StatusClass::Terminal <==> {
            ||| ascii_lower_seq(status) == "canceled"@
            ||| ascii_lower_seq(status) == "rejected"@
            ||| ascii_lower_seq(status) == "filled"@
        },
        status_class_spec(ascii_lower_seq(status)) == StatusClass::Open <==> {
            ||| ascii_lower_seq(status) == ""@
            ||| ascii_lower_seq(status) == "pending"@
            ||| ascii_lower_seq(status) == "working"@
            ||| ascii_lower_seq(status) == "pending_cancel"@
        },
        status_class_spec(ascii_lower_seq(crate::text::ascii_upper_seq(status)))
            == status_class_spec(ascii_lower_seq(status)),
{
    reveal_strlit("");
    reveal_strlit("pending");
    reveal_strlit("working");
    reveal_strlit("pending_cancel");
    reveal_strlit("canceled");
    reveal_strlit("rejected");
    reveal_strlit("filled");
    assert(""@.len() == 0);
    assert("pending"@.len() == 7);
    assert("working"@.len() == 7);
    assert("pending_cancel"@.len() == 14);
    assert("canceled"@.len() == 8);
    assert("rejected"@.len() == 8);
    assert("filled"@.len() == 6);
    crate::text::lemma_lower_of_upper(status);
}

} // verus!
