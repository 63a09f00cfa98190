//! DNS messages (RFC 1035) for the responder of the managed label: parsing
//! queries, the response policy, and encoding responses.
use vstd::prelude::*;

verus! {

/// Response codes.
#[derive(Clone, Copy, Debug, PartialEq, Eq, Structural)]
pub enum ResultCode {
    NOERROR,
    FORMERR,
    SERVFAIL,
    NXDOMAIN,
    NOTIMP,
    REFUSED,
}

impl ResultCode {
    /// The four-bit code on the wire.
    pub open spec fn code(self) -> u8 {
        match self {
            ResultCode::NOERROR => 0,
            ResultCode::FORMERR => 1,
            ResultCode::SERVFAIL => 2,
            ResultCode::NXDOMAIN => 3,
            ResultCode::NOTIMP => 4,
            ResultCode::REFUSED => 5,
        }
    }

    /// The code read from the wire; codes without a name read as `NOERROR`.
    pub open spec fn of_code(n: u8) -> ResultCode {
        if n == 1 {
            ResultCode::FORMERR
        } else if n == 2 {
            ResultCode::SERVFAIL
        } else if n == 3 {
            ResultCode::NXDOMAIN
        } else if n == 4 {
            ResultCode::NOTIMP
        } else if n == 5 {
            ResultCode::REFUSED
        } else {
            ResultCode::NOERROR
        }
    }

    /// `code`, computed.
    pub fn to_num(&self) -> (r: u8)
        ensures
            r == self.code(),
    {
        match self {
            ResultCode::NOERROR => 0,
            ResultCode::FORMERR => 1,
            ResultCode::SERVFAIL => 2,
            ResultCode::NXDOMAIN => 3,
            ResultCode::NOTIMP => 4,
            ResultCode::REFUSED => 5,
        }
    }

    /// `of_code`, computed.
    pub fn from_num(n: u8) -> (r: ResultCode)
        ensures
            r == ResultCode::of_code(n),
    {
        if n == 1 {
            ResultCode::FORMERR
        } else if n == 2 {
            ResultCode::SERVFAIL
        } else if n == 3 {
            ResultCode::NXDOMAIN
        } else if n == 4 {
            ResultCode::NOTIMP
        } else if n == 5 {
            ResultCode::REFUSED
        } else {
            ResultCode::NOERROR
        }
    }
}

/// Query types; those without a name keep their number.
#[derive(Clone, Copy, Debug, PartialEq, Eq, Structural)]
pub enum QueryType {
    UNKNOWN(u16),
    A,
    NS,
    CNAME,
    SOA,
    MX,
    AAAA,
}

impl QueryType {
    /// The type number on the wire.
    pub open spec fn code(self) -> u16 {
        match self {
            QueryType::UNKNOWN(n) => n,
            QueryType::A => 1,
            QueryType::NS => 2,
            QueryType::CNAME => 5,
            QueryType::SOA => 6,
            QueryType::MX => 15,
            QueryType::AAAA => 28,
        }
    }

    /// The type read from the wire.
    pub open spec fn of_code(n: u16) -> QueryType {
        if n == 1 {
            QueryType::A
        } else if n == 2 {
            QueryType::NS
        } else if n == 5 {
            QueryType::CNAME
        } else if n == 6 {
            QueryType::SOA
        } else if n == 15 {
            QueryType::MX
        } else if n == 28 {
            QueryType::AAAA
        } else {
            QueryType::UNKNOWN(n)
        }
    }

    /// `code`, computed.
    pub fn to_num(&self) -> (r: u16)
        ensures
            r == self.code(),
    {
        match self {
            QueryType::UNKNOWN(n) => *n,
            QueryType::A => 1,
            QueryType::NS => 2,
            QueryType::CNAME => 5,
            QueryType::SOA => 6,
            QueryType::MX => 15,
            QueryType::AAAA => 28,
        }
    }

    /// `of_code`, computed.
    pub fn from_num(n: u16) -> (r: QueryType)
        ensures
            r == QueryType::of_code(n),
    {
        if n == 1 {
            QueryType::A
        } else if n == 2 {
            QueryType::NS
        } else if n == 5 {
            QueryType::CNAME
        } else if n == 6 {
            QueryType::SOA
        } else if n == 15 {
            QueryType::MX
        } else if n == 28 {
            QueryType::AAAA
        } else {
            QueryType::UNKNOWN(n)
        }
    }
}

/// The fixed header of a message. The section counts are those of the
/// packet's own lists.
#[derive(Clone, Copy, Debug, PartialEq, Eq, Structural)]
pub struct DnsHeader {
    pub id: u16,
    pub recursion_desired: bool,
    pub truncated_message: bool,
    pub authoritative_answer: bool,
    pub opcode: u8,
    pub response: bool,
    pub rescode: ResultCode,
    pub checking_disabled: bool,
    pub authed_data: bool,
    pub z: bool,
    pub recursion_available: bool,
}

impl DnsHeader {
    /// A header with every flag clear, id 0 and code `NOERROR`.
    pub open spec fn empty() -> DnsHeader {
        DnsHeader {
            id: 0,
            recursion_desired: false,
            truncated_message: false,
            authoritative_answer: false,
            opcode: 0,
            response: false,
            rescode: ResultCode::NOERROR,
            checking_disabled: false,
            authed_data: false,
            z: false,
            recursion_available: false,
        }
    }

    /// `empty`, computed.
    pub fn new() -> (r: DnsHeader)
        ensures
            r == DnsHeader::empty(),
    {
        DnsHeader {
            id: 0,
            recursion_desired: false,
            truncated_message: false,
            authoritative_answer: false,
            opcode: 0,
            response: false,
            rescode: ResultCode::NOERROR,
            checking_disabled: false,
            authed_data: false,
            z: false,
            recursion_available: false,
        }
    }
}

/// One question: a name in dotted form (without the final dot) and a type.
pub struct DnsQuestion {
    pub name: Vec<u8>,
    pub qtype: QueryType,
}

/// An answer record.
pub enum DnsRecord {
    /// An IPv4 address record.
    A { domain: Vec<u8>, addr: [u8; 4], ttl: u32 },
}

/// A message: its header, its questions and its answers.
pub struct DnsPacket {
    pub header: DnsHeader,
    pub questions: Vec<DnsQuestion>,
    pub answers: Vec<DnsRecord>,
}

/// Mathematical form of a [`DnsQuestion`].
pub struct QuestionModel {
    pub name: Seq<u8>,
    pub qtype: QueryType,
}

/// Mathematical form of a [`DnsRecord`].
pub enum RecordModel {
    A { domain: Seq<u8>, addr: Seq<u8>, ttl: u32 },
}

/// Mathematical form of a [`DnsPacket`].
pub struct PacketModel {
    pub header: DnsHeader,
    pub questions: Seq<QuestionModel>,
    pub answers: Seq<RecordModel>,
}

impl View for DnsQuestion {
    type V = QuestionModel;

    open spec fn view(&self) -> QuestionModel {
        QuestionModel { name: self.name@, qtype: self.qtype }
    }
}

impl View for DnsRecord {
    type V = RecordModel;

    open spec fn view(&self) -> RecordModel {
        match self {
            DnsRecord::A { domain, addr, ttl } => RecordModel::A {
                domain: domain@,
                addr: addr@,
                ttl: *ttl,
            },
        }
    }
}

impl View for DnsPacket {
    type V = PacketModel;

    open spec fn view(&self) -> PacketModel {
        PacketModel {
            header: self.header,
            questions: self.questions@.map_values(|q: DnsQuestion| q@),
            answers: self.answers@.map_values(|a: DnsRecord| a@),
        }
    }
}

impl DnsQuestion {
    /// A question for `name` of type `qtype`.
    pub fn new(name: Vec<u8>, qtype: QueryType) -> (r: DnsQuestion)
        ensures
            r@ == (QuestionModel { name: name@, qtype }),
    {
        DnsQuestion { name, qtype }
    }

    /// A copy of this question.
    pub fn copy(&self) -> (r: DnsQuestion)
        ensures
            r@ == self@,
    {
        DnsQuestion { name: self.name.clone(), qtype: self.qtype }
    }
}

impl DnsPacket {
    /// A message with an empty header and no questions or answers.
    pub fn new() -> (r: DnsPacket)
        ensures
            r@ == (PacketModel {
                header: DnsHeader::empty(),
                questions: Seq::empty(),
                answers: Seq::empty(),
            }),
    {
        let r = DnsPacket { header: DnsHeader::new(), questions: Vec::new(), answers: Vec::new() };
        assert(r@.questions =~= Seq::empty());
        assert(r@.answers =~= Seq::empty());
        r
    }
}


/// The managed label as it ends a dotted name.
pub open spec fn test_suffix() -> Seq<u8> {
    seq![46u8, 116u8, 101u8, 115u8, 116u8]
}

/// `b` with ASCII capitals turned into small letters.
pub open spec fn lower_byte(b: u8) -> u8 {
    if 65 <= b && b <= 90 {
        (b + 32) as u8
    } else {
        b
    }
}

/// Whether a dotted name ends with `.test`, in any case.
pub open spec fn in_managed_label(name: Seq<u8>) -> bool {
    &&& name.len() >= 5
    &&& forall|i: int|
        0 <= i < 5 ==> lower_byte(#[trigger] name[name.len() - 5 + i]) == test_suffix()[i]
}

/// The loopback address.
pub open spec fn loopback() -> Seq<u8> {
    seq![127u8, 0u8, 0u8, 1u8]
}

/// A response header for a request header: same id and recursion-desired
/// bit, the response bit set, the code `rescode`, every other field clear.
pub open spec fn reply_header(h: DnsHeader, rescode: ResultCode) -> DnsHeader {
    DnsHeader {
        id: h.id,
        response: true,
        recursion_desired: h.recursion_desired,
        rescode,
        ..DnsHeader::empty()
    }
}

/// The response to a request. Only the first question counts.
pub open spec fn answer_for(req: PacketModel) -> PacketModel {
    let h = req.header;
    if req.questions.len() == 0 {
        PacketModel {
            header: reply_header(h, ResultCode::NOTIMP),
            questions: Seq::empty(),
            answers: Seq::empty(),
        }
    } else {
        let q = req.questions[0];
        let (code, answers) = if h.response || h.opcode != 0 {
            (ResultCode::NOTIMP, Seq::<RecordModel>::empty())
        } else if !in_managed_label(q.name) {
            (ResultCode::SERVFAIL, Seq::empty())
        } else {
            match q.qtype {
                QueryType::A => (
                    ResultCode::NOERROR,
                    seq![RecordModel::A { domain: q.name, addr: loopback(), ttl: 0 }],
                ),
                QueryType::UNKNOWN(_) => (ResultCode::SERVFAIL, Seq::empty()),
                _ => (ResultCode::NOERROR, Seq::empty()),
            }
        };
        PacketModel { header: reply_header(h, code), questions: seq![q], answers }
    }
}

/// Whether a dotted name ends with `.test`, in any case.
pub fn is_managed_name(name: &Vec<u8>) -> (r: bool)
    ensures
        r == in_managed_label(name@),
{
    let suffix: [u8; 5] = [46, 116, 101, 115, 116];
    assert(suffix@ =~= test_suffix());
    let n = name.len();
    if n < 5 {
        return false;
    }
    let mut i: usize = 0;
    while i < 5
        invariant
            n == name@.len(),
            n >= 5,
            i <= 5,
            suffix@ == test_suffix(),
            forall|j: int| 0 <= j < i ==> lower_byte(#[trigger] name@[n - 5 + j]) == test_suffix()[j],
        decreases 5 - i,
    {
        let b = name[n - 5 + i];
        let l = if 65 <= b && b <= 90 { b + 32 } else { b };
        if l != suffix[i] {
            assert(lower_byte(name@[n - 5 + i]) != test_suffix()[i as int]);
            return false;
        }
        i = i + 1;
    }
    true
}

/// Answers a request: `NOTIMP` for no question, a response, or a non-zero
/// opcode; `SERVFAIL` outside the managed label or for an unknown type; one
/// loopback address for type A; no answer for the other known types.
pub fn lookup(request: &DnsPacket) -> (response: DnsPacket)
    ensures
        response@ == answer_for(request@),
{
    let h = request.header;
    let mut header = DnsHeader::new();
    header.response = true;
    header.id = h.id;
    header.recursion_desired = h.recursion_desired;
    if request.questions.len() == 0 {
        header.rescode = ResultCode::NOTIMP;
        let r = DnsPacket { header, questions: Vec::new(), answers: Vec::new() };
        assert(r@.questions =~= Seq::empty());
        assert(r@.answers =~= Seq::empty());
        return r;
    }
    let query = request.questions[0].copy();
    let mut answers: Vec<DnsRecord> = Vec::new();
    if h.response || h.opcode != 0 {
        header.rescode = ResultCode::NOTIMP;
    } else if !is_managed_name(&query.name) {
        header.rescode = ResultCode::SERVFAIL;
    } else {
        match query.qtype {
            QueryType::A => {
                let addr: [u8; 4] = [127, 0, 0, 1];
                assert(addr@ =~= loopback());
                answers.push(DnsRecord::A { domain: query.name.clone(), addr, ttl: 0 });
            },
            QueryType::UNKNOWN(_) => {
                header.rescode = ResultCode::SERVFAIL;
            },
            _ => {},
        }
    }
    let mut questions: Vec<DnsQuestion> = Vec::new();
    questions.push(query);
    let r = DnsPacket { header, questions, answers };
    assert(r@.questions =~= seq![request@.questions[0]]);
    assert(r@.answers =~= answer_for(request@).answers);
    r
}


/// An A query for a name under the managed label, sent as a plain query,
/// gets exactly one answer: the loopback address with TTL 0, under the name
/// that was asked, which the response also echoes as its question.
pub proof fn lemma_a_query_answered(req: PacketModel)
    requires
        req.questions.len() > 0,
        !req.header.response,
        req.header.opcode == 0,
        in_managed_label(req.questions[0].name),
        req.questions[0].qtype == QueryType::A,
    ensures
        answer_for(req).header.rescode == ResultCode::NOERROR,
        answer_for(req).header.id == req.header.id,
        answer_for(req).questions == seq![req.questions[0]],
        answer_for(req).answers.len() == 1,
        answer_for(req).answers[0] == (RecordModel::A {
            domain: req.questions[0].name,
            addr: loopback(),
            ttl: 0,
        }),
{
}

/// The labels of an uncompressed name that starts at `pos`, each one at most
/// 63 bytes long and the whole ended by a zero byte.
pub open spec fn labels_at(buf: Seq<u8>, pos: int) -> Option<Seq<Seq<u8>>>
    decreases buf.len() - pos,
{
    if pos < 0 || pos >= buf.len() {
        None
    } else if buf[pos] == 0 {
        Some(Seq::empty())
    } else if buf[pos] >= 64 || pos + 1 + buf[pos] > buf.len() {
        None
    } else {
        match labels_at(buf, pos + 1 + buf[pos]) {
            Some(rest) => Some(seq![buf.subrange(pos + 1, pos + 1 + buf[pos])] + rest),
            None => None,
        }
    }
}

/// Where the name that starts at `pos` ends.
pub open spec fn name_end(buf: Seq<u8>, pos: int) -> int
    decreases buf.len() - pos,
{
    if pos < 0 || pos >= buf.len() || buf[pos] == 0 || buf[pos] >= 64 || pos + 1 + buf[pos]
        > buf.len() {
        pos + 1
    } else {
        name_end(buf, pos + 1 + buf[pos])
    }
}

/// Labels joined by dots.
pub open spec fn dotted(labels: Seq<Seq<u8>>) -> Seq<u8>
    decreases labels.len(),
{
    if labels.len() == 0 {
        Seq::empty()
    } else if labels.len() == 1 {
        labels[0]
    } else {
        dotted(labels.drop_last()) + seq![46u8] + labels.last()
    }
}

/// The big-endian 16-bit number at `pos`.
pub open spec fn u16_at(buf: Seq<u8>, pos: int) -> u16 {
    (buf[pos] as int * 256 + buf[pos + 1] as int) as u16
}

/// The question that starts at `pos`, and where it ends.
pub open spec fn question_at(buf: Seq<u8>, pos: int) -> Option<(QuestionModel, int)> {
    match labels_at(buf, pos) {
        None => None,
        Some(labels) => {
            let e = name_end(buf, pos);
            if e + 4 > buf.len() {
                None
            } else {
                Some((QuestionModel { name: dotted(labels), qtype: QueryType::of_code(u16_at(buf, e)) }, e + 4))
            }
        },
    }
}

/// `count` questions one after the other from `pos`.
pub open spec fn questions_at(buf: Seq<u8>, pos: int, count: nat) -> Option<Seq<QuestionModel>>
    decreases count,
{
    if count == 0 {
        Some(Seq::empty())
    } else {
        match question_at(buf, pos) {
            None => None,
            Some((q, next)) => match questions_at(buf, next, (count - 1) as nat) {
                None => None,
                Some(qs) => Some(seq![q] + qs),
            },
        }
    }
}

/// The header held by the first twelve bytes.
pub open spec fn header_of(buf: Seq<u8>) -> DnsHeader {
    let hi = buf[2];
    let lo = buf[3];
    DnsHeader {
        id: u16_at(buf, 0),
        response: hi / 128 == 1,
        opcode: (hi / 8) % 16,
        authoritative_answer: (hi / 4) % 2 == 1,
        truncated_message: (hi / 2) % 2 == 1,
        recursion_desired: hi % 2 == 1,
        recursion_available: lo / 128 == 1,
        z: (lo / 64) % 2 == 1,
        authed_data: (lo / 32) % 2 == 1,
        checking_disabled: (lo / 16) % 2 == 1,
        rescode: ResultCode::of_code(lo % 16),
    }
}

/// The message that `buf` holds: its header and its questions. Other sections
/// of an incoming message are not read.
pub open spec fn packet_of(buf: Seq<u8>) -> Option<PacketModel> {
    if buf.len() < 12 {
        None
    } else {
        match questions_at(buf, 12, u16_at(buf, 4) as nat) {
            None => None,
            Some(qs) => Some(PacketModel { header: header_of(buf), questions: qs, answers: Seq::empty() }),
        }
    }
}

/// `done` followed by what `rest` holds, if anything.
pub open spec fn prepend<T>(done: Seq<T>, rest: Option<Seq<T>>) -> Option<Seq<T>> {
    match rest {
        Some(r) => Some(done + r),
        None => None,
    }
}

/// Reads the name that starts at `pos`: its dotted form and where it ends.
fn read_name(buf: &[u8], pos: usize) -> (r: Option<(Vec<u8>, usize)>)
    ensures
        match labels_at(buf@, pos as int) {
            None => r is None,
            Some(labels) => r matches Some((name, end)) && name@ == dotted(labels) && end
                == name_end(buf@, pos as int) && end <= buf@.len(),
        },
{
    let n = buf.len();
    let mut cur: usize = pos;
    let mut out: Vec<u8> = Vec::new();
    let ghost mut done: Seq<Seq<u8>> = Seq::empty();
    let mut first = true;
    while cur < n
        invariant
            n == buf@.len(),
            first == (done.len() == 0),
            labels_at(buf@, pos as int) == prepend(done, labels_at(buf@, cur as int)),
            name_end(buf@, pos as int) == name_end(buf@, cur as int),
            out@ == dotted(done),
        decreases n - cur,
    {
        let len = buf[cur] as usize;
        if len == 0 {
            assert(done + Seq::<Seq<u8>>::empty() =~= done);
            return Some((out, cur + 1));
        }
        if len >= 64 || len >= n - cur {
            return None;
        }
        let ghost label = buf@.subrange(cur as int + 1, cur + 1 + len);
        if !first {
            out.push(46u8);
        }
        let mut j: usize = cur + 1;
        let ghost base = out@;
        while j < cur + 1 + len
            invariant
                n == buf@.len(),
                cur + 1 + len <= n,
                cur + 1 <= j <= cur + 1 + len,
                out@ == base + buf@.subrange(cur + 1, j as int),
            decreases cur + 1 + len - j,
        {
            out.push(buf[j]);
            assert(out@ =~= base + buf@.subrange(cur + 1, j + 1));
            j = j + 1;
        }
        proof {
            let next = done.push(label);
            assert(next.drop_last() =~= done);
            if done.len() == 0 {
                assert(out@ =~= dotted(next));
            } else {
                assert(out@ =~= dotted(next));
            }
            match labels_at(buf@, cur + 1 + len) {
                Some(rest) => {
                    assert(done + (seq![label] + rest) =~= next + rest);
                },
                None => {},
            }
            done = next;
        }
        first = false;
        cur = cur + 1 + len;
    }
    None
}

/// The big-endian 16-bit number at `pos`, computed.
fn read_u16(buf: &[u8], pos: usize) -> (r: u16)
    requires
        pos + 2 <= buf@.len(),
    ensures
        r == u16_at(buf@, pos as int),
{
    (buf[pos] as u16) * 256 + (buf[pos + 1] as u16)
}

impl DnsPacket {
    /// Reads a message: its header and its questions, whose names must not be
    /// compressed. Other sections of an incoming message are not read.
    pub fn from_bytes(buf: &[u8]) -> (r: Option<DnsPacket>)
        ensures
            match packet_of(buf@) {
                None => r is None,
                Some(p) => r matches Some(q) && q@ == p,
            },
    {
        let n = buf.len();
        if n < 12 {
            return None;
        }
        let hi = buf[2];
        let lo = buf[3];
        let header = DnsHeader {
            id: read_u16(buf, 0),
            response: hi / 128 == 1,
            opcode: (hi / 8) % 16,
            authoritative_answer: (hi / 4) % 2 == 1,
            truncated_message: (hi / 2) % 2 == 1,
            recursion_desired: hi % 2 == 1,
            recursion_available: lo / 128 == 1,
            z: (lo / 64) % 2 == 1,
            authed_data: (lo / 32) % 2 == 1,
            checking_disabled: (lo / 16) % 2 == 1,
            rescode: ResultCode::from_num(lo % 16),
        };
        let count = read_u16(buf, 4);
        let mut questions: Vec<DnsQuestion> = Vec::new();
        let mut pos: usize = 12;
        let mut k: u16 = 0;
        while k < count
            invariant
                n == buf@.len(),
                n >= 12,
                k <= count,
                count == u16_at(buf@, 4),
                pos <= n,
                questions_at(buf@, 12, count as nat) == prepend(
                    questions@.map_values(|q: DnsQuestion| q@),
                    questions_at(buf@, pos as int, (count - k) as nat),
                ),
            decreases count - k,
        {
            let named = read_name(buf, pos);
            match named {
                None => {
                    return None;
                },
                Some((name, end)) => {
                    if n - end < 4 {
                        return None;
                    }
                    let qtype = QueryType::from_num(read_u16(buf, end));
                    let ghost old_qs = questions@.map_values(|q: DnsQuestion| q@);
                    let q = DnsQuestion { name, qtype };
                    let ghost qm = q@;
                    questions.push(q);
                    proof {
                        assert(questions@.map_values(|q: DnsQuestion| q@) =~= old_qs.push(qm));
                        match questions_at(buf@, end + 4, (count - k - 1) as nat) {
                            Some(rest) => {
                                assert(old_qs + (seq![qm] + rest) =~= old_qs.push(qm) + rest);
                            },
                            None => {},
                        }
                    }
                    pos = end + 4;
                    k = k + 1;
                },
            }
        }
        let answers: Vec<DnsRecord> = Vec::new();
        let r = DnsPacket { header, questions, answers };
        assert(r@.answers =~= Seq::empty());
        assert(r@.questions + Seq::<QuestionModel>::empty() =~= r@.questions);
        Some(r)
    }
}


/// Position of the first dot in `t`, or its length where it holds none.
pub open spec fn first_dot(t: Seq<u8>) -> nat
    decreases t.len(),
{
    if t.len() == 0 || t[0] == 46 {
        0
    } else {
        1 + first_dot(t.drop_first())
    }
}

proof fn lemma_first_dot_bound(t: Seq<u8>)
    ensures
        first_dot(t) <= t.len(),
    decreases t.len(),
{
    if t.len() > 0 && t[0] != 46 {
        lemma_first_dot_bound(t.drop_first());
    }
}

/// The wire form of a dotted name: each label, 1 to 63 bytes, after its
/// length, and a zero byte at the end. A final dot is allowed; the empty
/// text is the root.
pub open spec fn encode_name(t: Seq<u8>) -> Option<Seq<u8>>
    decreases t.len(),
{
    if t.len() == 0 {
        Some(seq![0u8])
    } else {
        let k = first_dot(t);
        if k == 0 || k > 63 {
            None
        } else if k >= t.len() {
            Some(seq![k as u8] + t + seq![0u8])
        } else {
            match encode_name(t.skip(k as int + 1)) {
                Some(rest) => Some(seq![k as u8] + t.take(k as int) + rest),
                None => None,
            }
        }
    }
}

/// The big-endian bytes of a 16-bit number.
pub open spec fn u16_bytes(v: u16) -> Seq<u8> {
    seq![(v / 256) as u8, (v % 256) as u8]
}

/// The big-endian bytes of a 32-bit number.
pub open spec fn u32_bytes(v: u32) -> Seq<u8> {
    seq![(v / 16777216) as u8, ((v / 65536) % 256) as u8, ((v / 256) % 256) as u8, (v % 256) as u8]
}

/// The third header byte: response bit, opcode, AA, TC, RD.
pub open spec fn flags_hi(h: DnsHeader) -> u8 {
    ((if h.response { 128int } else { 0 }) + (h.opcode % 16) as int * 8 + (if h.authoritative_answer { 4int } else { 0 }) + (if h.truncated_message { 2int } else { 0 }) + (if h.recursion_desired { 1int } else { 0 })) as u8
}

/// The fourth header byte: RA, Z, AD, CD, response code.
pub open spec fn flags_lo(h: DnsHeader) -> u8 {
    ((if h.recursion_available { 128int } else { 0 }) + (if h.z { 64int } else { 0 }) + (if h.authed_data { 32int } else { 0 }) + (if h.checking_disabled { 16int } else { 0 }) + h.rescode.code() as int) as u8
}

/// The twelve header bytes, with `qd` questions and `an` answers.
pub open spec fn header_bytes(h: DnsHeader, qd: u16, an: u16) -> Seq<u8> {
    u16_bytes(h.id) + seq![flags_hi(h), flags_lo(h)] + u16_bytes(qd) + u16_bytes(an) + seq![0u8, 0u8, 0u8, 0u8]
}

/// The wire form of a question, of class IN.
pub open spec fn question_bytes(q: QuestionModel) -> Option<Seq<u8>> {
    match encode_name(q.name) {
        Some(n) => Some(n + u16_bytes(q.qtype.code()) + seq![0u8, 1u8]),
        None => None,
    }
}

/// The wire form of questions one after the other.
pub open spec fn questions_bytes(qs: Seq<QuestionModel>) -> Option<Seq<u8>>
    decreases qs.len(),
{
    if qs.len() == 0 {
        Some(Seq::empty())
    } else {
        match (questions_bytes(qs.drop_last()), question_bytes(qs.last())) {
            (Some(a), Some(b)) => Some(a + b),
            _ => None,
        }
    }
}

/// The pointer to the name of the first question, which starts right after
/// the header.
pub open spec fn first_question_pointer() -> Seq<u8> {
    seq![192u8, 12u8]
}

/// The wire form of an answer, of class IN. A domain equal to `first`, the
/// name of the first question, is written as a pointer to it.
pub open spec fn record_bytes(r: RecordModel, first: Option<Seq<u8>>) -> Option<Seq<u8>> {
    match r {
        RecordModel::A { domain, addr, ttl } => {
            let name = if first == Some(domain) {
                Some(first_question_pointer())
            } else {
                encode_name(domain)
            };
            match name {
                Some(n) => Some(n + seq![0u8, 1u8, 0u8, 1u8] + u32_bytes(ttl) + seq![0u8, 4u8] + addr),
                None => None,
            }
        },
    }
}

/// The wire form of answers one after the other.
pub open spec fn records_bytes(rs: Seq<RecordModel>, first: Option<Seq<u8>>) -> Option<Seq<u8>>
    decreases rs.len(),
{
    if rs.len() == 0 {
        Some(Seq::empty())
    } else {
        match (records_bytes(rs.drop_last(), first), record_bytes(rs.last(), first)) {
            (Some(a), Some(b)) => Some(a + b),
            _ => None,
        }
    }
}

/// The wire form of a message, where every name can be written.
pub open spec fn packet_bytes(p: PacketModel) -> Option<Seq<u8>> {
    let first = if p.questions.len() > 0 { Some(p.questions[0].name) } else { None };
    match (questions_bytes(p.questions), records_bytes(p.answers, first)) {
        (Some(q), Some(a)) => Some(header_bytes(p.header, p.questions.len() as u16, p.answers.len() as u16) + q + a),
        _ => None,
    }
}

proof fn lemma_questions_none(qs: Seq<QuestionModel>, i: int)
    requires
        0 <= i <= qs.len(),
        questions_bytes(qs.take(i)) is None,
    ensures
        questions_bytes(qs) is None,
    decreases qs.len() - i,
{
    if i < qs.len() {
        assert(qs.take(i + 1).drop_last() =~= qs.take(i));
        lemma_questions_none(qs, i + 1);
    } else {
        assert(qs.take(i) =~= qs);
    }
}

proof fn lemma_records_none(rs: Seq<RecordModel>, first: Option<Seq<u8>>, i: int)
    requires
        0 <= i <= rs.len(),
        records_bytes(rs.take(i), first) is None,
    ensures
        records_bytes(rs, first) is None,
    decreases rs.len() - i,
{
    if i < rs.len() {
        assert(rs.take(i + 1).drop_last() =~= rs.take(i));
        lemma_records_none(rs, first, i + 1);
    } else {
        assert(rs.take(i) =~= rs);
    }
}

/// Index of the first dot in `t[from..]`, or the length of `t`.
fn find_dot(t: &Vec<u8>, from: usize) -> (r: usize)
    requires
        from <= t@.len(),
    ensures
        r == from + first_dot(t@.skip(from as int)),
        r <= t@.len(),
{
    let mut i: usize = from;
    while i < t.len() && t[i] != 46
        invariant
            from <= i <= t@.len(),
            first_dot(t@.skip(from as int)) == (i - from) + first_dot(t@.skip(i as int)),
        decreases t@.len() - i,
    {
        assert(t@.skip(i as int).drop_first() =~= t@.skip(i as int + 1));
        i = i + 1;
    }
    proof {
        lemma_first_dot_bound(t@.skip(i as int));
    }
    i
}

/// Appends `bytes[from..to]` to `out`.
fn push_range(out: &mut Vec<u8>, bytes: &Vec<u8>, from: usize, to: usize)
    requires
        from <= to <= bytes@.len(),
    ensures
        final(out)@ == old(out)@ + bytes@.subrange(from as int, to as int),
{
    let mut j: usize = from;
    while j < to
        invariant
            from <= j <= to <= bytes@.len(),
            out@ == old(out)@ + bytes@.subrange(from as int, j as int),
        decreases to - j,
    {
        out.push(bytes[j]);
        assert(out@ =~= old(out)@ + bytes@.subrange(from as int, j as int + 1));
        j = j + 1;
    }
}

/// Appends the wire form of a dotted name to `out`; false where it has none.
fn write_name(out: &mut Vec<u8>, name: &Vec<u8>) -> (ok: bool)
    ensures
        match encode_name(name@) {
            Some(e) => ok && final(out)@ == old(out)@ + e,
            None => !ok,
        },
{
    let n = name.len();
    let mut i: usize = 0;
    let ghost start = out@;
    assert(name@.skip(0) =~= name@);
    while i < n
        invariant
            n == name@.len(),
            i <= n,
            encode_name(name@) == prepend(out@.skip(start.len() as int), encode_name(name@.skip(i as int))),
            out@.len() >= start.len(),
            out@.take(start.len() as int) == start,
            start == old(out)@,
        decreases n - i,
    {
        let e = find_dot(name, i);
        let k = e - i;
        let ghost t = name@.skip(i as int);
        if k == 0 || k > 63 {
            return false;
        }
        let ghost before = out@;
        out.push(k as u8);
        push_range(out, name, i, e);
        if e >= n {
            out.push(0u8);
            proof {
                assert(t =~= name@.subrange(i as int, e as int));
                assert(out@.skip(start.len() as int) =~= before.skip(start.len() as int) + (seq![k as u8] + t + seq![0u8]));
                assert(out@.take(start.len() as int) =~= start);
            }
            assert(out@ =~= old(out)@ + out@.skip(start.len() as int));
            return true;
        }
        proof {
            assert(t.take(k as int) =~= name@.subrange(i as int, e as int));
            assert(t.skip(k as int + 1) =~= name@.skip(e as int + 1));
            match encode_name(name@.skip(e as int + 1)) {
                Some(rest) => {
                    assert(out@.skip(start.len() as int) + rest =~= before.skip(start.len() as int) + (seq![k as u8] + t.take(k as int) + rest));
                },
                None => {},
            }
            assert(out@.take(start.len() as int) =~= start);
        }
        i = e + 1;
    }
    out.push(0u8);
    proof {
        assert(name@.skip(i as int).len() == 0);
        assert(out@.take(start.len() as int) =~= start);
    }
    assert(out@ =~= old(out)@ + out@.skip(start.len() as int));
    true
}

/// Appends the big-endian bytes of `v`.
fn write_u16(out: &mut Vec<u8>, v: u16)
    ensures
        final(out)@ == old(out)@ + u16_bytes(v),
{
    out.push((v / 256) as u8);
    out.push((v % 256) as u8);
    assert(out@ =~= old(out)@ + u16_bytes(v));
}

/// Appends the big-endian bytes of `v`.
fn write_u32(out: &mut Vec<u8>, v: u32)
    ensures
        final(out)@ == old(out)@ + u32_bytes(v),
{
    out.push((v / 16777216) as u8);
    out.push(((v / 65536) % 256) as u8);
    out.push(((v / 256) % 256) as u8);
    out.push((v % 256) as u8);
    assert(out@ =~= old(out)@ + u32_bytes(v));
}


impl DnsPacket {
    /// Writes the message in wire form, or `None` where a name cannot be
    /// written (an empty label or one longer than 63 bytes).
    pub fn to_bytes(&self) -> (r: Option<Vec<u8>>)
        requires
            self.questions@.len() <= 65535,
            self.answers@.len() <= 65535,
        ensures
            match packet_bytes(self@) {
                None => r is None,
                Some(b) => r matches Some(v) && v@ == b,
            },
    {
        let h = self.header;
        let mut out: Vec<u8> = Vec::new();
        write_u16(&mut out, h.id);
        let hi: u8 = (if h.response { 128u8 } else { 0 }) + (h.opcode % 16) * 8 + (if h.authoritative_answer { 4u8 } else { 0 }) + (if h.truncated_message { 2u8 } else { 0 }) + (if h.recursion_desired { 1u8 } else { 0 });
        let lo: u8 = (if h.recursion_available { 128u8 } else { 0 }) + (if h.z { 64u8 } else { 0 }) + (if h.authed_data { 32u8 } else { 0 }) + (if h.checking_disabled { 16u8 } else { 0 }) + h.rescode.to_num();
        out.push(hi);
        out.push(lo);
        let qd = self.questions.len() as u16;
        let an = self.answers.len() as u16;
        write_u16(&mut out, qd);
        write_u16(&mut out, an);
        out.push(0u8);
        out.push(0u8);
        out.push(0u8);
        out.push(0u8);
        let ghost model = self@;
        assert(out@ =~= header_bytes(h, model.questions.len() as u16, model.answers.len() as u16));
        let ghost head = out@;
        let mut i: usize = 0;
        while i < self.questions.len()
            invariant
                model == self@,
                i <= self.questions@.len(),
                out@.len() >= head.len(),
                out@.take(head.len() as int) == head,
                questions_bytes(model.questions.take(i as int)) == Some(out@.skip(head.len() as int)),
            decreases self.questions@.len() - i,
        {
            let q = &self.questions[i];
            let ghost before = out@;
            let ok = write_name(&mut out, &q.name);
            assert(model.questions.take(i as int + 1).drop_last() =~= model.questions.take(i as int));
            assert(model.questions[i as int] == q@);
            if !ok {
                proof {
                    lemma_questions_none(model.questions, i as int + 1);
                }
                return None;
            }
            write_u16(&mut out, q.qtype.to_num());
            out.push(0u8);
            out.push(1u8);
            proof {
                assert(out@.take(head.len() as int) =~= head);
                assert(out@.skip(head.len() as int) =~= before.skip(head.len() as int) + out@.skip(before.len() as int));
            }
            i = i + 1;
        }
        assert(model.questions.take(i as int) =~= model.questions);
        let ghost mid = out@;
        let ghost first: Option<Seq<u8>> = if model.questions.len() > 0 { Some(model.questions[0].name) } else { None };
        let mut j: usize = 0;
        while j < self.answers.len()
            invariant
                model == self@,
                first == (if model.questions.len() > 0 { Some(model.questions[0].name) } else { None::<Seq<u8>> }),
                j <= self.answers@.len(),
                out@.len() >= mid.len(),
                out@.take(mid.len() as int) == mid,
                records_bytes(model.answers.take(j as int), first) == Some(out@.skip(mid.len() as int)),
            decreases self.answers@.len() - j,
        {
            let ghost before = out@;
            assert(model.answers.take(j as int + 1).drop_last() =~= model.answers.take(j as int));
            assert(model.answers[j as int] == self.answers[j as int]@);
            match &self.answers[j] {
                DnsRecord::A { domain, addr, ttl } => {
                    let compress = self.questions.len() > 0 && same_bytes(&self.questions[0].name, domain);
                    if compress {
                        out.push(192u8);
                        out.push(12u8);
                        assert(out@ =~= before + first_question_pointer());
                    } else {
                        let ok = write_name(&mut out, domain);
                        if !ok {
                            proof {
                                lemma_records_none(model.answers, first, j as int + 1);
                            }
                            return None;
                        }
                    }
                    out.push(0u8);
                    out.push(1u8);
                    out.push(0u8);
                    out.push(1u8);
                    write_u32(&mut out, *ttl);
                    out.push(0u8);
                    out.push(4u8);
                    out.push(addr[0]);
                    out.push(addr[1]);
                    out.push(addr[2]);
                    out.push(addr[3]);
                    proof {
                        assert(addr@ =~= seq![addr[0], addr[1], addr[2], addr[3]]);
                        assert(out@.take(mid.len() as int) =~= mid);
                        assert(out@.skip(mid.len() as int) =~= before.skip(mid.len() as int) + out@.skip(before.len() as int));
                    }
                },
            }
            j = j + 1;
        }
        assert(model.answers.take(j as int) =~= model.answers);
        assert(out@ =~= head + out@.skip(head.len() as int));
        assert(out@.skip(head.len() as int) =~= mid.skip(head.len() as int) + out@.skip(mid.len() as int));
        Some(out)
    }
}

/// Whether two byte strings are equal.
fn same_bytes(a: &Vec<u8>, b: &Vec<u8>) -> (r: bool)
    ensures
        r == (a@ == b@),
{
    if a.len() != b.len() {
        return false;
    }
    let mut i: usize = 0;
    while i < a.len()
        invariant
            a@.len() == b@.len(),
            i <= a@.len(),
            forall|k: int| 0 <= k < i ==> a@[k] == b@[k],
        decreases a@.len() - i,
    {
        if a[i] != b[i] {
            return false;
        }
        i = i + 1;
    }
    assert(a@ =~= b@);
    true
}

/// The bytes that answer a datagram: the response to the message it holds,
/// or nothing where it holds none.
pub open spec fn reply_to(buf: Seq<u8>) -> Option<Seq<u8>> {
    match packet_of(buf) {
        None => None,
        Some(req) => packet_bytes(answer_for(req)),
    }
}

/// Answers one datagram.
pub fn handle_datagram(buf: &[u8]) -> (r: Option<Vec<u8>>)
    ensures
        match reply_to(buf@) {
            None => r is None,
            Some(b) => r matches Some(v) && v@ == b,
        },
{
    match DnsPacket::from_bytes(buf) {
        None => None,
        Some(request) => {
            let response = lookup(&request);
            response.to_bytes()
        },
    }
}

} // verus!
