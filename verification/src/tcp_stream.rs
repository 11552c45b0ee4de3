use vstd::prelude::*;
use crate::textfmt::chars_of;

verus! {

/// Bytes a stream accumulates before it is flushed.
pub const FLUSH_THRESHOLD: usize = 4096;

/// A connection endpoint as compared when ordering the two ends: the address
/// text first, then the port.
pub open spec fn chars_lt(a: Seq<char>, b: Seq<char>) -> bool
    decreases a.len(),
{
    if a.len() == 0 {
        b.len() > 0
    } else if b.len() == 0 {
        false
    } else if a[0] != b[0] {
        (a[0] as u32) < (b[0] as u32)
    } else {
        chars_lt(a.drop_first(), b.drop_first())
    }
}

/// `(a_ip, a_port) < (b_ip, b_port)`, ordering addresses lexicographically by character.
pub open spec fn endpoint_lt(a_ip: Seq<char>, a_port: u16, b_ip: Seq<char>, b_port: u16) -> bool {
    chars_lt(a_ip, b_ip) || (a_ip == b_ip && a_port < b_port)
}

/// The abstract value of a stream key: client address, client port, server address, server port.
pub type KeyView = (Seq<char>, u16, Seq<char>, u16);

/// The key of the connection between two endpoints: the smaller endpoint is
/// the client, so that both directions give the same key.
pub open spec fn stream_key(src_ip: Seq<char>, src_port: u16, dst_ip: Seq<char>, dst_port: u16) -> KeyView {
    if endpoint_lt(src_ip, src_port, dst_ip, dst_port) {
        (src_ip, src_port, dst_ip, dst_port)
    } else {
        (dst_ip, dst_port, src_ip, src_port)
    }
}

/// No text is below itself.
pub proof fn lemma_chars_lt_irreflexive(a: Seq<char>)
    ensures
        !chars_lt(a, a),
    decreases a.len(),
{
    if a.len() > 0 {
        lemma_chars_lt_irreflexive(a.drop_first());
    }
}

/// The character order is a strict total order: asymmetric, and any two
/// different texts are ordered one way or the other.
pub proof fn lemma_chars_lt_trichotomy(a: Seq<char>, b: Seq<char>)
    ensures
        !(chars_lt(a, b) && chars_lt(b, a)),
        a != b ==> chars_lt(a, b) || chars_lt(b, a),
    decreases a.len(),
{
    if a.len() > 0 && b.len() > 0 {
        lemma_chars_lt_trichotomy(a.drop_first(), b.drop_first());
        if a[0] != b[0] {
            vstd::utf8::char_u32_cast(a[0], a[0] as u32);
            vstd::utf8::char_u32_cast(b[0], b[0] as u32);
            assert((a[0] as u32) != (b[0] as u32));
        } else if a.drop_first() == b.drop_first() {
            assert(a =~= seq![a[0]] + a.drop_first());
            assert(b =~= seq![b[0]] + b.drop_first());
        }
    } else if a.len() == 0 && b.len() == 0 {
        assert(a =~= b);
    }
}

/// Both directions of a connection give the same key: swapping source and
/// destination does not change it.
pub proof fn lemma_stream_key_symmetric(a_ip: Seq<char>, a_port: u16, b_ip: Seq<char>, b_port: u16)
    ensures
        stream_key(a_ip, a_port, b_ip, b_port) == stream_key(b_ip, b_port, a_ip, a_port),
{
    lemma_chars_lt_trichotomy(a_ip, b_ip);
    lemma_chars_lt_irreflexive(a_ip);
}

/// Unique key identifying a TCP connection (bidirectional-aware).
/// We always put the smaller (ip, port) first so that both directions
/// of a connection share the same key.
#[derive(Debug, PartialEq, Eq, Hash)]
pub struct StreamKey {
    pub client_ip: String,
    pub client_port: u16,
    pub server_ip: String,
    pub server_port: u16,
}

impl View for StreamKey {
    type V = KeyView;

    open spec fn view(&self) -> KeyView {
        (self.client_ip@, self.client_port, self.server_ip@, self.server_port)
    }
}

impl Clone for StreamKey {
    fn clone(&self) -> (k: Self)
        ensures
            k@ == self@,
    {
        StreamKey {
            client_ip: self.client_ip.clone(),
            client_port: self.client_port,
            server_ip: self.server_ip.clone(),
            server_port: self.server_port,
        }
    }
}

/// `a < b` character by character, as `chars_lt`.
fn chars_less(a: &Vec<char>, b: &Vec<char>) -> (r: bool)
    ensures
        r == chars_lt(a@, b@),
{
    let mut i: usize = 0;
    assert(a@.skip(0) =~= a@ && b@.skip(0) =~= b@);
    while i < a.len() && i < b.len()
        invariant
            i <= a@.len(),
            i <= b@.len(),
            a@.subrange(0, i as int) == b@.subrange(0, i as int),
            chars_lt(a@, b@) == chars_lt(a@.skip(i as int), b@.skip(i as int)),
        decreases a@.len() - i,
    {
        if a[i] != b[i] {
            return (a[i] as u32) < (b[i] as u32);
        }
        proof {
            assert(a@.skip(i as int).drop_first() =~= a@.skip(i + 1));
            assert(b@.skip(i as int).drop_first() =~= b@.skip(i + 1));
            assert(a@.subrange(0, i + 1) =~= b@.subrange(0, i + 1));
        }
        i = i + 1;
    }
    i < b.len()
}

/// Whether two character vectors hold the same text.
fn chars_equal(a: &Vec<char>, b: &Vec<char>) -> (r: bool)
    ensures
        r == (a@ == b@),
{
    if a.len() != b.len() {
        return false;
    }
    let mut i: usize = 0;
    while i < a.len()
        invariant
            i <= a@.len(),
            a@.len() == b@.len(),
            a@.subrange(0, i as int) == b@.subrange(0, i as int),
        decreases a@.len() - i,
    {
        if a[i] != b[i] {
            return false;
        }
        proof { assert(a@.subrange(0, i + 1) =~= b@.subrange(0, i + 1)); }
        i = i + 1;
    }
    assert(a@ =~= a@.subrange(0, a@.len() as int));
    assert(b@ =~= b@.subrange(0, b@.len() as int));
    true
}

impl StreamKey {
    /// The key of the connection between the two endpoints, whichever direction the packet went.
    pub fn new(src_ip: &str, src_port: u16, dst_ip: &str, dst_port: u16) -> (k: Self)
        ensures
            k@ == stream_key(src_ip@, src_port, dst_ip@, dst_port),
    {
        let a = chars_of(src_ip);
        let b = chars_of(dst_ip);
        let src_first = chars_less(&a, &b) || (chars_equal(&a, &b) && src_port < dst_port);
        if src_first {
            StreamKey {
                client_ip: String::from_str(src_ip),
                client_port: src_port,
                server_ip: String::from_str(dst_ip),
                server_port: dst_port,
            }
        } else {
            StreamKey {
                client_ip: String::from_str(dst_ip),
                client_port: dst_port,
                server_ip: String::from_str(src_ip),
                server_port: src_port,
            }
        }
    }
}


/// Whether `data` starts with `prefix`.
pub open spec fn has_prefix(data: Seq<u8>, prefix: Seq<u8>) -> bool {
    prefix.len() <= data.len() && data.take(prefix.len() as int) == prefix
}

/// Whether `data` opens like an HTTP request or response.
pub open spec fn starts_like_http(data: Seq<u8>) -> bool {
    ||| has_prefix(data, seq![71u8, 69, 84, 32]) // "GET "
    ||| has_prefix(data, seq![80u8, 79, 83, 84, 32]) // "POST "
    ||| has_prefix(data, seq![80u8, 85, 84, 32]) // "PUT "
    ||| has_prefix(data, seq![68u8, 69, 76, 69, 84, 69, 32]) // "DELETE "
    ||| has_prefix(data, seq![72u8, 84, 84, 80, 47]) // "HTTP/"
}

/// Whether the bytes a stream holds are due for display: enough of them, or an
/// HTTP message with at least one complete line.
pub open spec fn should_flush(data: Seq<u8>) -> bool {
    data.len() >= FLUSH_THRESHOLD || (starts_like_http(data) && data.contains(10u8))
}

/// The bytes and segment count held for `k` in the streams `m`; nothing for a
/// connection not seen since its last flush.
pub open spec fn held_for(m: Map<KeyView, (Seq<u8>, nat)>, k: KeyView) -> (Seq<u8>, nat) {
    if m.contains_key(k) { m[k] } else { (Seq::<u8>::empty(), 0nat) }
}

/// One segment with a non-empty `payload` for the connection `k`: the bytes
/// flushed, if the stream is due, and the streams afterwards.
pub open spec fn fed(m: Map<KeyView, (Seq<u8>, nat)>, k: KeyView, payload: Seq<u8>) -> (Option<Seq<u8>>, Map<KeyView, (Seq<u8>, nat)>) {
    let held = held_for(m, k);
    let data = held.0 + payload;
    if should_flush(data) {
        (Some(data), m.insert(k, (Seq::<u8>::empty(), 0nat)))
    } else {
        (None, m.insert(k, (data, held.1 + 1)))
    }
}

/// When a segment makes a stream due: the stream's bytes, with the new
/// segment, are handed back whole as soon as they are 4096 bytes or more, or
/// open with `GET `, `POST `, `PUT `, `DELETE ` or `HTTP/` and hold a line
/// feed; otherwise they are held.
pub proof fn lemma_when_a_stream_is_flushed(m: Map<KeyView, (Seq<u8>, nat)>, k: KeyView, payload: Seq<u8>)
    ensures
        ({
            let data = held_for(m, k).0 + payload;
            let opens_http = (data.len() >= 4 && data.take(4) == seq![71u8, 69, 84, 32])  // "GET "
                || (data.len() >= 5 && data.take(5) == seq![80u8, 79, 83, 84, 32])  // "POST "
                || (data.len() >= 4 && data.take(4) == seq![80u8, 85, 84, 32])  // "PUT "
                || (data.len() >= 7 && data.take(7) == seq![68u8, 69, 76, 69, 84, 69, 32])  // "DELETE "
                || (data.len() >= 5 && data.take(5) == seq![72u8, 84, 84, 80, 47]);  // "HTTP/"
            let has_line_feed = exists|i: int| 0 <= i < data.len() && data[i] == 10u8;
            let due = data.len() >= 4096 || (opens_http && has_line_feed);
            &&& due ==> fed(m, k, payload).0 == Some(data)
            &&& due ==> fed(m, k, payload).1[k] == (Seq::<u8>::empty(), 0nat)
            &&& !due ==> fed(m, k, payload).0 is None
            &&& !due ==> fed(m, k, payload).1[k] == (data, held_for(m, k).1 + 1)
        }),
{
    let data = held_for(m, k).0 + payload;
    if exists|i: int| 0 <= i < data.len() && data[i] == 10u8 {
        let i = choose|i: int| 0 <= i < data.len() && data[i] == 10u8;
        assert(data.contains(10u8));
    }
    if data.contains(10u8) {
        let i = choose|i: int| 0 <= i < data.len() && data[i] == 10u8;
        assert(exists|i: int| 0 <= i < data.len() && data[i] == 10u8);
    }
}

/// Holds the accumulated payload bytes of an ongoing TCP session.
pub struct TcpStream {
    pub key: StreamKey,
    /// All accumulated payload bytes so far (best-effort, no strict reordering).
    pub data: Vec<u8>,
    pub packet_count: usize,
}

impl TcpStream {
    fn new(key: StreamKey) -> (s: Self)
        ensures
            s.key@ == key@,
            s.data@ == Seq::<u8>::empty(),
            s.packet_count == 0,
    {
        TcpStream { key, data: Vec::new(), packet_count: 0 }
    }
}

/// The contents of the streams: for each key, the bytes held and the number of segments they came in.
pub open spec fn streams_view(s: Seq<TcpStream>) -> Map<KeyView, (Seq<u8>, nat)> {
    Map::new(
        |k: KeyView| exists|i: int| 0 <= i < s.len() && s[i].key@ == k,
        |k: KeyView| {
            let i = choose|i: int| 0 <= i < s.len() && s[i].key@ == k;
            (s[i].data@, s[i].packet_count as nat)
        },
    )
}

/// No two streams share a key, and no stream counts more segments than it holds bytes.
pub open spec fn streams_wf(s: Seq<TcpStream>) -> bool {
    &&& forall|i: int, j: int| 0 <= i < s.len() && 0 <= j < s.len() && i != j ==> s[i].key@ != s[j].key@
    &&& forall|i: int| 0 <= i < s.len() ==> s[i].packet_count <= s[i].data@.len()
}

proof fn lemma_streams_view_at(s: Seq<TcpStream>, i: int)
    requires
        streams_wf(s),
        0 <= i < s.len(),
    ensures
        streams_view(s).contains_key(s[i].key@),
        streams_view(s)[s[i].key@] == (s[i].data@, s[i].packet_count as nat),
{
    let k = s[i].key@;
    assert(exists|j: int| 0 <= j < s.len() && s[j].key@ == k);
    let j = choose|j: int| 0 <= j < s.len() && s[j].key@ == k;
    assert(j == i);
}

proof fn lemma_streams_view_update(s: Seq<TcpStream>, i: int, t: TcpStream)
    requires
        streams_wf(s),
        0 <= i < s.len(),
        t.key@ == s[i].key@,
        t.packet_count <= t.data@.len(),
    ensures
        streams_wf(s.update(i, t)),
        streams_view(s.update(i, t)) == streams_view(s).insert(t.key@, (t.data@, t.packet_count as nat)),
{
    let s2 = s.update(i, t);
    let m = streams_view(s).insert(t.key@, (t.data@, t.packet_count as nat));
    assert forall|k: KeyView| #[trigger] streams_view(s2).contains_key(k) == m.contains_key(k) by {
        if streams_view(s2).contains_key(k) {
            let j = choose|j: int| 0 <= j < s2.len() && s2[j].key@ == k;
            if j != i {
                assert(s[j].key@ == k);
            }
        }
        if m.contains_key(k) && k != t.key@ {
            let j = choose|j: int| 0 <= j < s.len() && s[j].key@ == k;
            assert(s2[j].key@ == k);
        }
        if k == t.key@ {
            assert(s2[i].key@ == k);
        }
    }
    assert(streams_wf(s2));
    assert forall|k: KeyView| #[trigger] streams_view(s2).contains_key(k) implies streams_view(s2)[k] == m[k] by {
        let j = choose|j: int| 0 <= j < s2.len() && s2[j].key@ == k;
        lemma_streams_view_at(s2, j);
        if j != i {
            lemma_streams_view_at(s, j);
        }
    }
    assert(streams_view(s2) =~= m);
}

proof fn lemma_streams_view_push(s: Seq<TcpStream>, t: TcpStream)
    requires
        streams_wf(s),
        !streams_view(s).contains_key(t.key@),
        t.packet_count <= t.data@.len(),
    ensures
        streams_wf(s.push(t)),
        streams_view(s.push(t)) == streams_view(s).insert(t.key@, (t.data@, t.packet_count as nat)),
{
    let s2 = s.push(t);
    let m = streams_view(s).insert(t.key@, (t.data@, t.packet_count as nat));
    assert forall|i: int| 0 <= i < s.len() implies s[i].key@ != t.key@ by {
        if s[i].key@ == t.key@ {
            assert(streams_view(s).contains_key(t.key@));
        }
    }
    assert(streams_wf(s2));
    assert forall|k: KeyView| #[trigger] streams_view(s2).contains_key(k) == m.contains_key(k) by {
        if streams_view(s2).contains_key(k) {
            let j = choose|j: int| 0 <= j < s2.len() && s2[j].key@ == k;
            if j < s.len() {
                assert(s[j].key@ == k);
            }
        }
        if m.contains_key(k) && k != t.key@ {
            let j = choose|j: int| 0 <= j < s.len() && s[j].key@ == k;
            assert(s2[j].key@ == k);
        }
        if k == t.key@ {
            assert(s2[s.len() as int].key@ == k);
        }
    }
    assert forall|k: KeyView| #[trigger] streams_view(s2).contains_key(k) implies streams_view(s2)[k] == m[k] by {
        let j = choose|j: int| 0 <= j < s2.len() && s2[j].key@ == k;
        lemma_streams_view_at(s2, j);
        if j < s.len() {
            lemma_streams_view_at(s, j);
        }
    }
    assert(streams_view(s2) =~= m);
}

/// Whether `data` starts with `prefix`.
fn starts_with_bytes(data: &Vec<u8>, prefix: &[u8]) -> (r: bool)
    ensures
        r == has_prefix(data@, prefix@),
{
    if prefix.len() > data.len() {
        return false;
    }
    let mut i: usize = 0;
    while i < prefix.len()
        invariant
            i <= prefix@.len() <= data@.len(),
            data@.take(i as int) == prefix@.take(i as int),
        decreases prefix@.len() - i,
    {
        if data[i] != prefix[i] {
            assert(data@.take(prefix@.len() as int)[i as int] != prefix@[i as int]);
            return false;
        }
        i = i + 1;
        assert(data@.take(i as int) =~= prefix@.take(i as int));
    }
    assert(prefix@.take(prefix@.len() as int) =~= prefix@);
    true
}

/// Whether `data` holds a line feed.
fn contains_newline(data: &Vec<u8>) -> (r: bool)
    ensures
        r == data@.contains(10u8),
{
    let mut i: usize = 0;
    while i < data.len()
        invariant
            i <= data@.len(),
            forall|j: int| 0 <= j < i ==> data@[j] != 10u8,
        decreases data@.len() - i,
    {
        if data[i] == 10u8 {
            return true;
        }
        i = i + 1;
    }
    false
}

/// Whether `data` opens like an HTTP request or response.
fn http_start(data: &Vec<u8>) -> (r: bool)
    ensures
        r == starts_like_http(data@),
{
    let get: [u8; 4] = [71, 69, 84, 32];
    let post: [u8; 5] = [80, 79, 83, 84, 32];
    let put: [u8; 4] = [80, 85, 84, 32];
    let delete: [u8; 7] = [68, 69, 76, 69, 84, 69, 32];
    let http: [u8; 5] = [72, 84, 84, 80, 47];
    let r = starts_with_bytes(data, get.as_slice()) || starts_with_bytes(data, post.as_slice())
        || starts_with_bytes(data, put.as_slice()) || starts_with_bytes(data, delete.as_slice())
        || starts_with_bytes(data, http.as_slice());
    proof {
        assert(get@ =~= seq![71u8, 69, 84, 32]);
        assert(post@ =~= seq![80u8, 79, 83, 84, 32]);
        assert(put@ =~= seq![80u8, 85, 84, 32]);
        assert(delete@ =~= seq![68u8, 69, 76, 69, 84, 69, 32]);
        assert(http@ =~= seq![72u8, 84, 84, 80, 47]);
    }
    r
}

/// Tracks all active TCP streams and reassembles their payloads.
pub struct TcpStreamTracker {
    streams: Vec<TcpStream>,
    /// Maximum number of bytes accumulated per stream before flushing to display.
    flush_threshold: usize,
}

impl View for TcpStreamTracker {
    type V = Map<KeyView, (Seq<u8>, nat)>;

    /// For each connection seen since the last flush of its stream: the bytes
    /// held and the number of segments they came in.
    closed spec fn view(&self) -> Map<KeyView, (Seq<u8>, nat)> {
        streams_view(self.streams@)
    }
}

impl TcpStreamTracker {
    /// The tracker's internal consistency.
    pub closed spec fn wf(&self) -> bool {
        &&& streams_wf(self.streams@)
        &&& self.flush_threshold == FLUSH_THRESHOLD
    }

    /// A tracker with no streams.
    pub fn new() -> (t: Self)
        ensures
            t.wf(),
            t@ == Map::<KeyView, (Seq<u8>, nat)>::empty(),
    {
        let t = TcpStreamTracker { streams: Vec::new(), flush_threshold: FLUSH_THRESHOLD };
        assert(t@ =~= Map::<KeyView, (Seq<u8>, nat)>::empty());
        t
    }

    /// The index of the stream with key `key`, if any.
    fn find(&self, key: &StreamKey) -> (r: Option<usize>)
        requires
            self.wf(),
        ensures
            r matches Some(i) ==> i < self.streams@.len() && self.streams@[i as int].key@ == key@,
            r is None ==> !self@.contains_key(key@),
    {
        let mut i: usize = 0;
        while i < self.streams.len()
            invariant
                i <= self.streams@.len(),
                forall|j: int| 0 <= j < i ==> self.streams@[j].key@ != key@,
            decreases self.streams@.len() - i,
        {
            let k = &self.streams[i].key;
            let same_client = k.client_ip == key.client_ip;
            let same_server = k.server_ip == key.server_ip;
            if same_client && k.client_port == key.client_port && same_server && k.server_port == key.server_port {
                return Some(i);
            }
            i = i + 1;
        }
        None
    }

    /// Feed a new TCP payload segment into the tracker.
    /// Returns Some(flushed_data) if a stream has accumulated enough data to display,
    /// or if an HTTP response/request boundary is detected.
    pub fn feed(
        &mut self,
        src_ip: &str,
        src_port: u16,
        dst_ip: &str,
        dst_port: u16,
        payload: &[u8],
    ) -> (res: Option<(StreamKey, Vec<u8>)>)
        requires
            old(self).wf(),
        ensures
            final(self).wf(),
            payload@.len() == 0 ==> res is None && final(self)@ == old(self)@,
            payload@.len() > 0 ==> {
                let k = stream_key(src_ip@, src_port, dst_ip@, dst_port);
                let (flushed, after) = fed(old(self)@, k, payload@);
                &&& final(self)@ == after
                &&& match flushed {
                    None => res is None,
                    Some(data) => res matches Some((key, f)) && key@ == k && f@ == data,
                }
            },
    {
        if payload.len() == 0 {
            return None;
        }
        let key = StreamKey::new(src_ip, src_port, dst_ip, dst_port);
        let i = match self.find(&key) {
            Some(i) => {
                proof { lemma_streams_view_at(self.streams@, i as int); }
                i
            },
            None => {
                let fresh = TcpStream::new(key.clone());
                proof { lemma_streams_view_push(self.streams@, fresh); }
                self.streams.push(fresh);
                proof { lemma_streams_view_at(self.streams@, self.streams@.len() - 1); }
                self.streams.len() - 1
            },
        };
        let ghost before = self.streams@;
        let ghost held = self.streams@[i as int].data@;
        let mut stream = TcpStream::new(key.clone());
        std::mem::swap(&mut stream, &mut self.streams[i]);
        assert(stream == before[i as int]);
        stream.data.extend_from_slice(payload);
        assert(stream.data@ =~= held + payload@);
        let n = stream.data.len();
        assert(stream.packet_count < n);
        stream.packet_count = stream.packet_count + 1;
        let flush = stream.data.len() >= self.flush_threshold
            || (http_start(&stream.data) && contains_newline(&stream.data));
        if flush {
            let flushed = stream.data.clone();
            assert(flushed@ =~= stream.data@);
            stream.data.clear();
            stream.packet_count = 0;
            proof { lemma_streams_view_update(before, i as int, stream); }
            self.streams.set(i, stream);
            assert(self.streams@ =~= before.update(i as int, stream));
            return Some((key, flushed));
        }
        proof { lemma_streams_view_update(before, i as int, stream); }
        self.streams.set(i, stream);
        assert(self.streams@ =~= before.update(i as int, stream));
        None
    }

    /// Remove all streams — useful when the user sends Ctrl+C.
    pub fn clear(&mut self)
        requires
            old(self).wf(),
        ensures
            final(self).wf(),
            final(self)@ == Map::<KeyView, (Seq<u8>, nat)>::empty(),
    {
        self.streams.clear();
        assert(self@ =~= Map::<KeyView, (Seq<u8>, nat)>::empty());
    }
}

/// Both directions of a connection feed one stream: after a segment from `a`
/// to `b` that does not flush, a segment from `b` back to `a` is judged, and
/// flushed, together with everything held before it, in arrival order.
pub proof fn lemma_both_directions_share_a_stream(
    m: Map<KeyView, (Seq<u8>, nat)>,
    a_ip: Seq<char>,
    a_port: u16,
    b_ip: Seq<char>,
    b_port: u16,
    request: Seq<u8>,
    reply: Seq<u8>,
)
    requires
        fed(m, stream_key(a_ip, a_port, b_ip, b_port), request).0 is None,
    ensures
        ({
            let k = stream_key(a_ip, a_port, b_ip, b_port);
            let all = held_for(m, k).0 + request + reply;
            let after_request = fed(m, k, request).1;
            let after_reply = fed(after_request, stream_key(b_ip, b_port, a_ip, a_port), reply);
            &&& should_flush(all) ==> after_reply.0 == Some(all)
            &&& !should_flush(all) ==> after_reply.0 is None && after_reply.1[k] == (all, held_for(m, k).1 + 2)
        }),
{
    lemma_stream_key_symmetric(a_ip, a_port, b_ip, b_port);
    let k = stream_key(a_ip, a_port, b_ip, b_port);
    let after_request = fed(m, k, request).1;
    assert(held_for(after_request, k) == (held_for(m, k).0 + request, held_for(m, k).1 + 1));
    assert(held_for(m, k).0 + request + reply =~= held_for(after_request, k).0 + reply);
}

impl Default for TcpStreamTracker {
    fn default() -> (t: Self)
        ensures
            t.wf(),
            t@ == Map::<KeyView, (Seq<u8>, nat)>::empty(),
    {
        Self::new()
    }
}

} // verus!
