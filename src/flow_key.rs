use vstd::prelude::*;

verus! {

/// Lexicographic order on two byte strings of the same length:
/// `a` is strictly smaller than `b` when they agree up to some position
/// where `a` holds the smaller byte.
pub open spec fn bytes_lt(a: Seq<u8>, b: Seq<u8>) -> bool {
    exists|i: int|
        0 <= i < a.len() && i < b.len() && #[trigger] a.take(i) == b.take(i) && a[i] < b[i]
}

/// The smaller of two addresses in lexicographic byte order.
pub open spec fn addr_min(a: Seq<u8>, b: Seq<u8>) -> Seq<u8> {
    if bytes_lt(b, a) { b } else { a }
}

/// The larger of two addresses in lexicographic byte order.
pub open spec fn addr_max(a: Seq<u8>, b: Seq<u8>) -> Seq<u8> {
    if bytes_lt(b, a) { a } else { b }
}

pub open spec fn port_min(a: u16, b: u16) -> u16 {
    if a <= b { a } else { b }
}

pub open spec fn port_max(a: u16, b: u16) -> u16 {
    if a <= b { b } else { a }
}

/// The abstract value of a flow key: the smaller address, the larger
/// address, the smaller port and the larger port.
pub type FlowKeyView = (Seq<u8>, Seq<u8>, u16, u16);

/// The key of the flow between two endpoints, independent of direction.
pub open spec fn flow_key_of(
    source: Seq<u8>,
    destination: Seq<u8>,
    source_port: u16,
    destination_port: u16,
) -> FlowKeyView {
    (
        addr_min(destination, source),
        addr_max(destination, source),
        port_min(destination_port, source_port),
        port_max(destination_port, source_port),
    )
}

/// An order-independent identifier of one TCP connection over IPv6.
#[derive(Clone, Copy, Debug)]
pub struct FlowKey {
    pub min_ip: [u8; 16],
    pub max_ip: [u8; 16],
    pub min_port: u16,
    pub max_port: u16,
}

/// The key that [`FlowKey::new`] builds for these endpoints.
pub open spec fn key_between(
    source: [u8; 16],
    destination: [u8; 16],
    source_port: u16,
    destination_port: u16,
) -> FlowKey {
    FlowKey {
        min_ip: if bytes_lt(source@, destination@) { source } else { destination },
        max_ip: if bytes_lt(source@, destination@) { destination } else { source },
        min_port: port_min(destination_port, source_port),
        max_port: port_max(destination_port, source_port),
    }
}

impl View for FlowKey {
    type V = FlowKeyView;

    open spec fn view(&self) -> FlowKeyView {
        (self.min_ip@, self.max_ip@, self.min_port, self.max_port)
    }
}

proof fn lemma_first_difference(a: Seq<u8>, b: Seq<u8>, n: int)
    requires
        a.len() == b.len(),
        a != b,
        0 <= n <= a.len(),
        forall|j: int| 0 <= j < n ==> a[j] == b[j],
    ensures
        exists|i: int| 0 <= i < a.len() && #[trigger] a.take(i) == b.take(i) && a[i] != b[i],
    decreases a.len() - n,
{
    if n == a.len() {
        assert(a =~= b);
    } else if a[n] != b[n] {
        assert(a.take(n) =~= b.take(n));
    } else {
        lemma_first_difference(a, b, n + 1);
    }
}

/// Any two distinct byte strings of one length are ordered one way or the other,
/// and never both ways.
pub proof fn lemma_bytes_lt_total(a: Seq<u8>, b: Seq<u8>)
    requires
        a.len() == b.len(),
    ensures
        a != b ==> (bytes_lt(a, b) || bytes_lt(b, a)),
        !(bytes_lt(a, b) && bytes_lt(b, a)),
        bytes_lt(a, b) ==> a != b,
{
    if a != b {
        lemma_first_difference(a, b, 0);
        let i = choose|i: int| 0 <= i < a.len() && #[trigger] a.take(i) == b.take(i) && a[i] != b[i];
        if a[i] < b[i] {
            assert(bytes_lt(a, b));
        } else {
            assert(b.take(i) == a.take(i));
            assert(bytes_lt(b, a));
        }
    }
    if bytes_lt(a, b) && bytes_lt(b, a) {
        let i = choose|i: int| 0 <= i < a.len() && i < b.len() && #[trigger] a.take(i) == b.take(i) && a[i] < b[i];
        let j = choose|j: int| 0 <= j < b.len() && j < a.len() && #[trigger] b.take(j) == a.take(j) && b[j] < a[j];
        if i < j {
            assert(b.take(j)[i] == a.take(j)[i]);
        } else if j < i {
            assert(a.take(i)[j] == b.take(i)[j]);
        }
    }
}

/// Flow keys do not depend on the direction of the packet.
pub proof fn lemma_flow_key_symmetric(a: Seq<u8>, b: Seq<u8>, pa: u16, pb: u16)
    requires
        a.len() == b.len(),
    ensures
        flow_key_of(a, b, pa, pb) == flow_key_of(b, a, pb, pa),
{
    lemma_bytes_lt_total(a, b);
}

/// Whether `a` comes strictly before `b` in lexicographic byte order.
pub fn addr_lt(a: &[u8; 16], b: &[u8; 16]) -> (r: bool)
    ensures
        r == bytes_lt(a@, b@),
{
    let mut i: usize = 0;
    while i < 16
        invariant
            0 <= i <= 16,
            a@.len() == 16,
            b@.len() == 16,
            forall|j: int| 0 <= j < i ==> a@[j] == b@[j],
        decreases 16 - i,
    {
        if a[i] != b[i] {
            assert(a@.take(i as int) =~= b@.take(i as int));
            if a[i] < b[i] {
                return true;
            } else {
                proof {
                    lemma_bytes_lt_total(a@, b@);
                    assert(b@.take(i as int) =~= a@.take(i as int));
                    assert(bytes_lt(b@, a@));
                }
                return false;
            }
        }
        i += 1;
    }
    proof {
        assert(a@ =~= b@);
        lemma_bytes_lt_total(a@, b@);
    }
    false
}

/// Whether two addresses hold the same bytes.
pub fn addr_eq(a: &[u8; 16], b: &[u8; 16]) -> (r: bool)
    ensures
        r == (a@ == b@),
{
    let mut i: usize = 0;
    while i < 16
        invariant
            0 <= i <= 16,
            a@.len() == 16,
            b@.len() == 16,
            forall|j: int| 0 <= j < i ==> a@[j] == b@[j],
        decreases 16 - i,
    {
        if a[i] != b[i] {
            return false;
        }
        i += 1;
    }
    assert(a@ =~= b@);
    true
}

impl FlowKey {
    /// The key of the connection that a packet between these endpoints
    /// belongs to, whichever endpoint sent it.
    pub fn new(
        source: [u8; 16],
        destination: [u8; 16],
        source_port: u16,
        destination_port: u16,
    ) -> (r: FlowKey)
        ensures
            r@ == flow_key_of(source@, destination@, source_port, destination_port),
            r == key_between(source, destination, source_port, destination_port),
    {
        let source_first = addr_lt(&source, &destination);
        let (min_ip, max_ip) = if source_first {
            (source, destination)
        } else {
            (destination, source)
        };
        let (min_port, max_port) = if destination_port <= source_port {
            (destination_port, source_port)
        } else {
            (source_port, destination_port)
        };
        FlowKey { min_ip, max_ip, min_port, max_port }
    }

    /// Whether two keys name the same connection.
    pub fn same(&self, other: &FlowKey) -> (r: bool)
        ensures
            r == (self@ == other@),
    {
        addr_eq(&self.min_ip, &other.min_ip) && addr_eq(&self.max_ip, &other.max_ip)
            && self.min_port == other.min_port && self.max_port == other.max_port
    }
}

} // verus!
