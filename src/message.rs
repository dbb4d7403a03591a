//! The messages of the daemon channel, their auxiliary enumerations, and the
//! shared-file record carried by search replies.
use crate::wire::{
    get_u32_le, get_u64_le, pack_string, put_u32_le, put_u64_le, read_string, string_bytes,
    take_string, take_u32, take_u64, u32_le, u64_le,
};
use vstd::prelude::*;

verus! {

/// The hash algorithm named in a client's login.
#[derive(Clone, Copy, Debug, PartialEq, Eq, Structural)]
pub enum CLoginAlgorithm {
    Sha1,
    Sha256,
    Md5,
}

/// The textual token of each algorithm, as ASCII bytes.
pub open spec fn algorithm_token(a: CLoginAlgorithm) -> Seq<u8> {
    match a {
        CLoginAlgorithm::Sha1 => seq![83u8, 72, 65, 49],
        CLoginAlgorithm::Sha256 => seq![83u8, 72, 65, 50, 53, 54],
        CLoginAlgorithm::Md5 => seq![77u8, 68, 53],
    }
}

/// The algorithm whose token is `t`, if any.
pub open spec fn algorithm_of_token(t: Seq<u8>) -> Option<CLoginAlgorithm> {
    if t == algorithm_token(CLoginAlgorithm::Sha1) {
        Some(CLoginAlgorithm::Sha1)
    } else if t == algorithm_token(CLoginAlgorithm::Sha256) {
        Some(CLoginAlgorithm::Sha256)
    } else if t == algorithm_token(CLoginAlgorithm::Md5) {
        Some(CLoginAlgorithm::Md5)
    } else {
        None
    }
}

impl CLoginAlgorithm {
    /// The token of this algorithm: "SHA1", "SHA256" or "MD5".
    pub fn token(&self) -> (r: Vec<u8>)
        ensures
            r@ == algorithm_token(*self),
    {
        let r = match self {
            CLoginAlgorithm::Sha1 => vec![83u8, 72, 65, 49],
            CLoginAlgorithm::Sha256 => vec![83u8, 72, 65, 50, 53, 54],
            CLoginAlgorithm::Md5 => vec![77u8, 68, 53],
        };
        assert(r@ =~= algorithm_token(*self));
        r
    }

    /// The algorithm whose token is `t`; `None` for any other bytes.
    pub fn from_token(t: &[u8]) -> (r: Option<CLoginAlgorithm>)
        ensures
            r == algorithm_of_token(t@),
    {
        let n = t.len();
        if n == 4 && t[0] == 83 && t[1] == 72 && t[2] == 65 && t[3] == 49 {
            assert(t@ =~= algorithm_token(CLoginAlgorithm::Sha1));
            Some(CLoginAlgorithm::Sha1)
        } else if n == 6 && t[0] == 83 && t[1] == 72 && t[2] == 65 && t[3] == 50 && t[4] == 53
            && t[5] == 54 {
            assert(t@ =~= algorithm_token(CLoginAlgorithm::Sha256));
            Some(CLoginAlgorithm::Sha256)
        } else if n == 3 && t[0] == 77 && t[1] == 68 && t[2] == 53 {
            assert(t@ =~= algorithm_token(CLoginAlgorithm::Md5));
            Some(CLoginAlgorithm::Md5)
        } else {
            None
        }
    }
}

/// The scope of a client's search.
#[derive(Clone, Copy, Debug, PartialEq, Eq, Structural)]
pub enum CSearchKind {
    Global,
    Buddies,
    Room,
}

/// The wire code of each scope.
pub open spec fn search_kind_code(k: CSearchKind) -> u32 {
    match k {
        CSearchKind::Global => 0,
        CSearchKind::Buddies => 1,
        CSearchKind::Room => 2,
    }
}

/// The scope whose wire code is `c`, if any.
pub open spec fn search_kind_of_code(c: u32) -> Option<CSearchKind> {
    if c == 0 {
        Some(CSearchKind::Global)
    } else if c == 1 {
        Some(CSearchKind::Buddies)
    } else if c == 2 {
        Some(CSearchKind::Room)
    } else {
        None
    }
}

impl CSearchKind {
    /// The wire code of this scope.
    pub fn code(&self) -> (r: u32)
        ensures
            r == search_kind_code(*self),
    {
        match self {
            CSearchKind::Global => 0,
            CSearchKind::Buddies => 1,
            CSearchKind::Room => 2,
        }
    }

    /// The scope whose wire code is `c`; `None` for codes past 2.
    pub fn from_code(c: u32) -> (r: Option<CSearchKind>)
        ensures
            r == search_kind_of_code(c),
    {
        if c == 0 {
            Some(CSearchKind::Global)
        } else if c == 1 {
            Some(CSearchKind::Buddies)
        } else if c == 2 {
            Some(CSearchKind::Room)
        } else {
            None
        }
    }
}

/// One shared file in a search reply.
#[derive(Clone, Debug, PartialEq, Eq)]
pub struct FileEntry {
    pub name: String,
    pub size: u64,
    pub extension: String,
    /// Metadata attributes as (kind, value) pairs.
    pub attributes: Vec<(u32, u32)>,
}

/// A shared file as a mathematical value.
pub struct FileEntryView {
    pub name: Seq<char>,
    pub size: u64,
    pub extension: Seq<char>,
    pub attributes: Seq<(u32, u32)>,
}

impl View for FileEntry {
    type V = FileEntryView;

    open spec fn view(&self) -> FileEntryView {
        FileEntryView {
            name: self.name@,
            size: self.size,
            extension: self.extension@,
            attributes: self.attributes@,
        }
    }
}

/// The bytes of a list of attributes, each kind then value.
pub open spec fn attributes_bytes(a: Seq<(u32, u32)>) -> Seq<u8>
    decreases a.len(),
{
    if a.len() == 0 {
        Seq::empty()
    } else {
        attributes_bytes(a.drop_last()) + u32_le(a.last().0) + u32_le(a.last().1)
    }
}

/// A file entry on the wire: name, size as a little-endian `u64`,
/// extension, the number of attributes, then the attributes.
pub open spec fn file_entry_bytes(e: FileEntryView) -> Seq<u8> {
    string_bytes(e.name) + u64_le(e.size) + string_bytes(e.extension) + u32_le(
        e.attributes.len() as u32,
    ) + attributes_bytes(e.attributes)
}

/// The bytes of a list of file entries, one after another.
pub open spec fn file_entries_bytes(es: Seq<FileEntryView>) -> Seq<u8>
    decreases es.len(),
{
    if es.len() == 0 {
        Seq::empty()
    } else {
        file_entries_bytes(es.drop_last()) + file_entry_bytes(es.last())
    }
}

/// The views of a vector's entries.
pub open spec fn entry_views(es: Seq<FileEntry>) -> Seq<FileEntryView> {
    es.map_values(|e: FileEntry| e@)
}

/// Reads `n` attributes from `p` of `s`, front first, with the position
/// after them.
pub open spec fn take_attributes(s: Seq<u8>, p: int, n: nat) -> Option<(Seq<(u32, u32)>, int)>
    decreases n,
{
    if n == 0 {
        Some((Seq::empty(), p))
    } else {
        match take_attributes(s, p, (n - 1) as nat) {
            Some((a, q)) => match take_u32(s, q) {
                Some((k, q2)) => match take_u32(s, q2) {
                    Some((v, q3)) => Some((a.push((k, v)), q3)),
                    None => None,
                },
                None => None,
            },
            None => None,
        }
    }
}

/// Reads one file entry at `p` of `s`, with the position after it.
pub open spec fn take_file_entry(s: Seq<u8>, p: int) -> Option<(FileEntryView, int)> {
    match take_string(s, p) {
        Some((name, p1)) => match take_u64(s, p1) {
            Some((size, p2)) => match take_string(s, p2) {
                Some((extension, p3)) => match take_u32(s, p3) {
                    Some((n, p4)) => match take_attributes(s, p4, n as nat) {
                        Some((attributes, p5)) => Some(
                            (FileEntryView { name, size, extension, attributes }, p5),
                        ),
                        None => None,
                    },
                    None => None,
                },
                None => None,
            },
            None => None,
        },
        None => None,
    }
}

/// Reads `n` file entries from `p` of `s`, with the position after them.
pub open spec fn take_file_entries(s: Seq<u8>, p: int, n: nat) -> Option<
    (Seq<FileEntryView>, int),
>
    decreases n,
{
    if n == 0 {
        Some((Seq::empty(), p))
    } else {
        match take_file_entries(s, p, (n - 1) as nat) {
            Some((es, q)) => match take_file_entry(s, q) {
                Some((e, q2)) => Some((es.push(e), q2)),
                None => None,
            },
            None => None,
        }
    }
}

proof fn lemma_attributes_fail(s: Seq<u8>, p: int, i: nat, n: nat)
    requires
        i <= n,
        take_attributes(s, p, i) is None,
    ensures
        take_attributes(s, p, n) is None,
    decreases n,
{
    if i < n {
        lemma_attributes_fail(s, p, i, (n - 1) as nat);
    }
}

proof fn lemma_entries_fail(s: Seq<u8>, p: int, i: nat, n: nat)
    requires
        i <= n,
        take_file_entries(s, p, i) is None,
    ensures
        take_file_entries(s, p, n) is None,
    decreases n,
{
    if i < n {
        lemma_entries_fail(s, p, i, (n - 1) as nat);
    }
}

/// Reads `n` attributes at `p` of `s`.
fn read_attributes(s: &[u8], p: usize, n: u32) -> (r: Option<(Vec<(u32, u32)>, usize)>)
    ensures
        r matches Some((a, q)) ==> take_attributes(s@, p as int, n as nat) == Some(
            (a@, q as int),
        ),
        r is None ==> take_attributes(s@, p as int, n as nat) is None,
{
    let mut acc: Vec<(u32, u32)> = Vec::new();
    let mut q = p;
    let mut i: u32 = 0;
    while i < n
        invariant
            i <= n,
            take_attributes(s@, p as int, i as nat) == Some((acc@, q as int)),
        decreases n - i,
    {
        match get_u32_le(s, q) {
            Some((k, q2)) => match get_u32_le(s, q2) {
                Some((v, q3)) => {
                    acc.push((k, v));
                    q = q3;
                },
                None => {
                    proof {
                        lemma_attributes_fail(s@, p as int, (i + 1) as nat, n as nat);
                    }
                    return None;
                },
            },
            None => {
                proof {
                    lemma_attributes_fail(s@, p as int, (i + 1) as nat, n as nat);
                }
                return None;
            },
        }
        i = i + 1;
    }
    Some((acc, q))
}

/// Reads one file entry at `p` of `s`, with the position after it, so that
/// entries stored one after another can be read by repeated calls; `None`
/// where a field runs past the end.
pub fn read_file_entry(s: &[u8], p: usize) -> (r: Option<(FileEntry, usize)>)
    ensures
        r matches Some((e, q)) ==> take_file_entry(s@, p as int) == Some((e@, q as int)),
        r is None ==> take_file_entry(s@, p as int) is None,
{
    let (name, p1) = match read_string(s, p) {
        Some(x) => x,
        None => return None,
    };
    let (size, p2) = match get_u64_le(s, p1) {
        Some(x) => x,
        None => return None,
    };
    let (extension, p3) = match read_string(s, p2) {
        Some(x) => x,
        None => return None,
    };
    let (n, p4) = match get_u32_le(s, p3) {
        Some(x) => x,
        None => return None,
    };
    let (attributes, p5) = match read_attributes(s, p4, n) {
        Some(x) => x,
        None => return None,
    };
    Some((FileEntry { name, size, extension, attributes }, p5))
}

/// Reads `n` file entries at `p` of `s`, with the position after them.
pub fn read_file_entries(s: &[u8], p: usize, n: u32) -> (r: Option<(Vec<FileEntry>, usize)>)
    ensures
        r matches Some((es, q)) ==> take_file_entries(s@, p as int, n as nat) == Some(
            (entry_views(es@), q as int),
        ),
        r is None ==> take_file_entries(s@, p as int, n as nat) is None,
{
    let mut acc: Vec<FileEntry> = Vec::new();
    let mut q = p;
    let mut i: u32 = 0;
    while i < n
        invariant
            i <= n,
            take_file_entries(s@, p as int, i as nat) == Some((entry_views(acc@), q as int)),
        decreases n - i,
    {
        match read_file_entry(s, q) {
            Some((e, q2)) => {
                let ghost before = acc@;
                acc.push(e);
                assert(entry_views(acc@) =~= entry_views(before).push(e@));
                q = q2;
            },
            None => {
                proof {
                    lemma_entries_fail(s@, p as int, (i + 1) as nat, n as nat);
                }
                return None;
            },
        }
        i = i + 1;
    }
    Some((acc, q))
}

/// Appends one file entry to `out`.
pub fn pack_file_entry(entry: &FileEntry, out: &mut Vec<u8>)
    ensures
        final(out)@ == old(out)@ + file_entry_bytes(entry@),
{
    pack_string(entry.name.as_str(), out);
    put_u64_le(out, entry.size);
    pack_string(entry.extension.as_str(), out);
    let n = entry.attributes.len();
    put_u32_le(out, n as u32);
    let ghost start = out@;
    let mut i: usize = 0;
    while i < n
        invariant
            n == entry.attributes@.len(),
            i <= n,
            out@ == start + attributes_bytes(entry.attributes@.subrange(0, i as int)),
        decreases n - i,
    {
        let (k, v) = entry.attributes[i];
        put_u32_le(out, k);
        put_u32_le(out, v);
        let ghost sub = entry.attributes@.subrange(0, i + 1);
        assert(sub.drop_last() =~= entry.attributes@.subrange(0, i as int));
        i = i + 1;
    }
    assert(entry.attributes@.subrange(0, n as int) =~= entry.attributes@);
    assert(out@ =~= old(out)@ + file_entry_bytes(entry@));
}

/// Appends each entry of `entries`, in order, to `out`.
pub fn pack_file_entries(entries: &Vec<FileEntry>, out: &mut Vec<u8>)
    ensures
        final(out)@ == old(out)@ + file_entries_bytes(entry_views(entries@)),
{
    let n = entries.len();
    let mut i: usize = 0;
    while i < n
        invariant
            n == entries@.len(),
            i <= n,
            out@ == old(out)@ + file_entries_bytes(entry_views(entries@.subrange(0, i as int))),
        decreases n - i,
    {
        pack_file_entry(&entries[i], out);
        let ghost sub = entry_views(entries@.subrange(0, i + 1));
        assert(sub.drop_last() =~= entry_views(entries@.subrange(0, i as int)));
        assert(out@ =~= old(out)@ + file_entries_bytes(sub));
        i = i + 1;
    }
    assert(entries@.subrange(0, n as int) =~= entries@);
}

/// A message of the daemon channel. Variants named `C...` arrive from a
/// client and are only decoded; variants named `S...` are sent by this side
/// and are only encoded.
#[derive(Clone, Debug, PartialEq, Eq)]
pub enum DaemonMsg {
    CPing { id: u32 },
    SPing { id: u32 },
    SChallenge { version: u32, challenge: String },
    CLogin { algorithm: CLoginAlgorithm, challenge_response: String, mask: u32 },
    SLogin { success: bool, message: String, challenge: String },
    SServerState { connected: bool, username: String },
    CSearch { kind: CSearchKind, query: String },
    SSearch { query: String, token: u32 },
    SSearchReply {
        token: u32,
        username: String,
        slots_free: bool,
        average_speed: u32,
        queue_length: u32,
        results: Vec<FileEntry>,
        locked_results: Vec<FileEntry>,
    },
}

/// A message as a mathematical value.
pub enum DaemonMsgView {
    CPing { id: u32 },
    SPing { id: u32 },
    SChallenge { version: u32, challenge: Seq<char> },
    CLogin { algorithm: CLoginAlgorithm, challenge_response: Seq<char>, mask: u32 },
    SLogin { success: bool, message: Seq<char>, challenge: Seq<char> },
    SServerState { connected: bool, username: Seq<char> },
    CSearch { kind: CSearchKind, query: Seq<char> },
    SSearch { query: Seq<char>, token: u32 },
    SSearchReply {
        token: u32,
        username: Seq<char>,
        slots_free: bool,
        average_speed: u32,
        queue_length: u32,
        results: Seq<FileEntryView>,
        locked_results: Seq<FileEntryView>,
    },
}

impl View for DaemonMsg {
    type V = DaemonMsgView;

    open spec fn view(&self) -> DaemonMsgView {
        match self {
            DaemonMsg::CPing { id } => DaemonMsgView::CPing { id: *id },
            DaemonMsg::SPing { id } => DaemonMsgView::SPing { id: *id },
            DaemonMsg::SChallenge { version, challenge } => DaemonMsgView::SChallenge {
                version: *version,
                challenge: challenge@,
            },
            DaemonMsg::CLogin { algorithm, challenge_response, mask } => DaemonMsgView::CLogin {
                algorithm: *algorithm,
                challenge_response: challenge_response@,
                mask: *mask,
            },
            DaemonMsg::SLogin { success, message, challenge } => DaemonMsgView::SLogin {
                success: *success,
                message: message@,
                challenge: challenge@,
            },
            DaemonMsg::SServerState { connected, username } => DaemonMsgView::SServerState {
                connected: *connected,
                username: username@,
            },
            DaemonMsg::CSearch { kind, query } => DaemonMsgView::CSearch {
                kind: *kind,
                query: query@,
            },
            DaemonMsg::SSearch { query, token } => DaemonMsgView::SSearch {
                query: query@,
                token: *token,
            },
            DaemonMsg::SSearchReply {
                token,
                username,
                slots_free,
                average_speed,
                queue_length,
                results,
                locked_results,
            } => DaemonMsgView::SSearchReply {
                token: *token,
                username: username@,
                slots_free: *slots_free,
                average_speed: *average_speed,
                queue_length: *queue_length,
                results: entry_views(results@),
                locked_results: entry_views(locked_results@),
            },
        }
    }
}

/// Kind tag of pings.
pub const PING: u32 = 0x0000;

/// Kind tag of challenges.
pub const CHALLENGE: u32 = 0x0001;

/// Kind tag of logins.
pub const LOGIN: u32 = 0x0002;

/// Kind tag of server states.
pub const SERVER_STATE: u32 = 0x0003;

/// Kind tag of searches.
pub const SEARCH: u32 = 0x0401;

/// Kind tag of search replies.
pub const SEARCH_REPLY: u32 = 0x0402;

/// Whether `m` is sent by this side (and so can be encoded).
pub open spec fn is_outbound(m: DaemonMsgView) -> bool {
    match m {
        DaemonMsgView::CPing { .. } | DaemonMsgView::CLogin { .. } | DaemonMsgView::CSearch {
            ..
        } => false,
        _ => true,
    }
}

/// The kind tag of `m`; the two directions share tags.
pub open spec fn kind_of(m: DaemonMsgView) -> u32 {
    match m {
        DaemonMsgView::CPing { .. } | DaemonMsgView::SPing { .. } => PING,
        DaemonMsgView::SChallenge { .. } => CHALLENGE,
        DaemonMsgView::CLogin { .. } | DaemonMsgView::SLogin { .. } => LOGIN,
        DaemonMsgView::SServerState { .. } => SERVER_STATE,
        DaemonMsgView::CSearch { .. } | DaemonMsgView::SSearch { .. } => SEARCH,
        DaemonMsgView::SSearchReply { .. } => SEARCH_REPLY,
    }
}

/// A boolean as one byte, 0 or 1.
pub open spec fn bool_byte(b: bool) -> u8 {
    if b {
        1
    } else {
        0
    }
}

/// The body of an outbound message: its fields in wire order. Inbound
/// messages have none here.
pub open spec fn outbound_body(m: DaemonMsgView) -> Seq<u8> {
    match m {
        DaemonMsgView::SPing { id } => u32_le(id),
        DaemonMsgView::SChallenge { version, challenge } => u32_le(version) + string_bytes(
            challenge,
        ),
        DaemonMsgView::SLogin { success, message, challenge } => seq![bool_byte(success)]
            + string_bytes(message) + string_bytes(challenge),
        DaemonMsgView::SServerState { connected, username } => seq![bool_byte(connected)]
            + string_bytes(username),
        DaemonMsgView::SSearch { query, token } => string_bytes(query) + u32_le(token),
        DaemonMsgView::SSearchReply {
            token,
            username,
            slots_free,
            average_speed,
            queue_length,
            results,
            locked_results,
        } => u32_le(token) + string_bytes(username) + seq![bool_byte(slots_free)] + u32_le(
            average_speed,
        ) + u32_le(queue_length) + u32_le(results.len() as u32) + file_entries_bytes(results)
            + u32_le(locked_results.len() as u32) + file_entries_bytes(locked_results),
        _ => Seq::empty(),
    }
}

/// The body of an inbound message as a client lays it out.
pub open spec fn inbound_body(m: DaemonMsgView) -> Seq<u8> {
    match m {
        DaemonMsgView::CPing { id } => u32_le(id),
        DaemonMsgView::CLogin { algorithm, challenge_response, mask } => u32_le(
            algorithm_token(algorithm).len() as u32,
        ) + algorithm_token(algorithm) + string_bytes(challenge_response) + u32_le(mask),
        DaemonMsgView::CSearch { kind, query } => u32_le(search_kind_code(kind)) + string_bytes(
            query,
        ),
        _ => Seq::empty(),
    }
}

/// A whole frame: total length (the tag and the body), kind tag, body.
pub open spec fn frame_bytes(kind: u32, body: Seq<u8>) -> Seq<u8> {
    u32_le((body.len() + 4) as u32) + u32_le(kind) + body
}

/// Appends the body of a search reply to `out`.
fn pack_search_reply(msg: &DaemonMsg, out: &mut Vec<u8>)
    requires
        msg is SSearchReply,
    ensures
        final(out)@ == old(out)@ + outbound_body(msg@),
{
    let ghost start = out@;
    if let DaemonMsg::SSearchReply {
        token,
        username,
        slots_free,
        average_speed,
        queue_length,
        results,
        locked_results,
    } = msg {
        put_u32_le(out, *token);
        pack_string(username.as_str(), out);
        out.push(if *slots_free { 1u8 } else { 0u8 });
        put_u32_le(out, *average_speed);
        put_u32_le(out, *queue_length);
        put_u32_le(out, results.len() as u32);
        pack_file_entries(results, out);
        put_u32_le(out, locked_results.len() as u32);
        pack_file_entries(locked_results, out);
        assert(out@ =~= start + outbound_body(msg@));
    }
}

/// Appends the body of an outbound message to `out` and returns its tag.
pub fn pack_body(msg: &DaemonMsg, out: &mut Vec<u8>) -> (kind: u32)
    requires
        is_outbound(msg@),
    ensures
        kind == kind_of(msg@),
        final(out)@ == old(out)@ + outbound_body(msg@),
{
    let ghost start = out@;
    match msg {
        DaemonMsg::SPing { id } => {
            put_u32_le(out, *id);
            PING
        },
        DaemonMsg::SChallenge { version, challenge } => {
            put_u32_le(out, *version);
            pack_string(challenge.as_str(), out);
            assert(out@ =~= start + outbound_body(msg@));
            CHALLENGE
        },
        DaemonMsg::SLogin { success, message, challenge } => {
            out.push(if *success { 1u8 } else { 0u8 });
            pack_string(message.as_str(), out);
            pack_string(challenge.as_str(), out);
            assert(out@ =~= start + outbound_body(msg@));
            LOGIN
        },
        DaemonMsg::SServerState { connected, username } => {
            out.push(if *connected { 1u8 } else { 0u8 });
            pack_string(username.as_str(), out);
            assert(out@ =~= start + outbound_body(msg@));
            SERVER_STATE
        },
        DaemonMsg::SSearch { query, token } => {
            pack_string(query.as_str(), out);
            put_u32_le(out, *token);
            assert(out@ =~= start + outbound_body(msg@));
            SEARCH
        },
        DaemonMsg::SSearchReply { .. } => {
            pack_search_reply(msg, out);
            SEARCH_REPLY
        },
        _ => {
            proof {
                assert(false);
            }
            PING
        },
    }
}

} // verus!
