//! What every source yields: items to index, and the chunks of each item.
use vstd::prelude::*;

use crate::text::{colon_joined, decimal, push_char, push_decimal, push_number_pair, push_text};
use crate::turns::{GroupView, TurnGroup};

pub mod hermes;
pub mod markdown;
pub mod moltis;
pub mod nanobot;
pub mod pi;

verus! {

/// A file system path, carried through unchanged.
#[verifier::external_type_specification]
#[verifier::external_body]
pub struct ExPathBuf(std::path::PathBuf);

/// What kind of indexed item this is
#[derive(Debug, Clone, Copy, PartialEq, Eq, Structural)]
pub enum ItemKind {
    Session,
    Note,
    Memory,
}

/// The name under which a kind is indexed.
pub open spec fn kind_label(k: ItemKind) -> Seq<char> {
    match k {
        ItemKind::Session => "session"@,
        ItemKind::Note => "note"@,
        ItemKind::Memory => "memory"@,
    }
}

impl ItemKind {
    /// The name under which this kind is indexed: `session`, `note` or `memory`.
    pub fn to_string(&self) -> (s: String)
        ensures
            s@ == kind_label(*self),
    {
        match self {
            ItemKind::Session => String::from_str("session"),
            ItemKind::Note => String::from_str("note"),
            ItemKind::Memory => String::from_str("memory"),
        }
    }
}

/// A chunk is the unit of indexing — one or more messages grouped together
#[derive(Debug, Clone)]
pub struct ItemChunk {
    pub item_id: String,
    pub chunk_id: String,
    pub source: String,
    pub kind: ItemKind,
    pub title: Option<String>,
    /// unix ms
    pub timestamp: i64,
    pub ordinal: u32,
    pub content: String,
    pub role: Option<String>,
    pub path: Option<String>,
}

/// Metadata for incremental sync — cheap to compute, avoids re-parsing
#[derive(Debug, Clone)]
pub struct SourceItemMeta {
    pub item_id: String,
    /// source-specific: message_count, mtime+size, etc.
    pub fingerprint: String,
}

/// A member of a JSON object that should hold a string.
pub enum JsonText {
    /// The member is absent.
    Missing,
    /// The member holds something else than a string.
    NotString,
    /// The member holds this string.
    Text(String),
}

/// The text of an optional string, empty when absent.
pub open spec fn text_or_empty(o: Option<String>) -> Seq<char> {
    match o {
        Some(s) => s@,
        None => seq![],
    }
}

/// `parts` joined by newlines.
pub open spec fn join_lines(parts: Seq<Seq<char>>) -> Seq<char>
    decreases parts.len(),
{
    if parts.len() == 0 {
        seq![]
    } else if parts.len() == 1 {
        parts[0]
    } else {
        join_lines(parts.drop_last()) + seq!['\n'] + parts.last()
    }
}

/// At most the first 80 characters of `s`.
pub open spec fn first_80(s: Seq<char>) -> Seq<char> {
    s.take(if s.len() < 80 { s.len() as int } else { 80 })
}

/// The view of an optional string.
pub open spec fn opt_view(o: Option<String>) -> Option<Seq<char>> {
    match o {
        Some(s) => Some(s@),
        None => None,
    }
}

/// A copy of an optional string.
pub fn copy_opt(o: &Option<String>) -> (r: Option<String>)
    ensures
        opt_view(r) == opt_view(*o),
{
    match o {
        Some(s) => Some(s.clone()),
        None => None,
    }
}

/// Fingerprint of a file: its size and modification time, as `size:mtime`.
pub open spec fn file_fingerprint_text(size: u64, mtime_secs: u64) -> Seq<char> {
    colon_joined(decimal(size as nat), decimal(mtime_secs as nat))
}

/// The fingerprint of a file of `size` bytes last modified at `mtime_secs`.
pub fn file_fingerprint(size: u64, mtime_secs: u64) -> (f: String)
    ensures
        f@ == file_fingerprint_text(size, mtime_secs),
{
    let mut f = String::new();
    push_number_pair(&mut f, size, mtime_secs);
    assert(Seq::<char>::empty() + file_fingerprint_text(size, mtime_secs) =~= file_fingerprint_text(
        size,
        mtime_secs,
    ));
    f
}

/// A file changed in size or modification time gets another fingerprint, so it is
/// indexed again.
pub proof fn law_file_fingerprint_detects_change(s1: u64, m1: u64, s2: u64, m2: u64)
    requires
        file_fingerprint_text(s1, m1) == file_fingerprint_text(s2, m2),
    ensures
        s1 == s2,
        m1 == m2,
{
    crate::text::lemma_decimal_shape(s1 as nat);
    crate::text::lemma_decimal_shape(s2 as nat);
    crate::text::lemma_colon_joined_injective(
        decimal(s1 as nat),
        decimal(m1 as nat),
        decimal(s2 as nat),
        decimal(m2 as nat),
    );
    crate::text::lemma_decimal_injective(s1 as nat, s2 as nat);
    crate::text::lemma_decimal_injective(m1 as nat, m2 as nat);
}

/// The chunks of one session get distinct ids: `base:k` differs for different `k`.
pub proof fn law_chunk_ids_distinct(base: Seq<char>, k1: nat, k2: nat)
    requires
        k1 != k2,
    ensures
        colon_joined(base, decimal(k1)) != colon_joined(base, decimal(k2)),
{
    if colon_joined(base, decimal(k1)) == colon_joined(base, decimal(k2)) {
        let n = base.len() + 1;
        assert(decimal(k1) =~= colon_joined(base, decimal(k1)).skip(n as int));
        assert(decimal(k2) =~= colon_joined(base, decimal(k2)).skip(n as int));
        crate::text::lemma_decimal_injective(k1, k2);
    }
}

/// The role recorded on a chunk of a session.
pub open spec fn chunk_role(always_user: bool, g: GroupView) -> Option<Seq<char>> {
    if always_user || g.has_user {
        Some("user"@)
    } else {
        None
    }
}

/// `c` is chunk number `k` of a session, made from group `g`.
pub open spec fn is_session_chunk(
    c: ItemChunk,
    item_id: Seq<char>,
    id_base: Seq<char>,
    source: Seq<char>,
    title: Option<Seq<char>>,
    always_user: bool,
    path: Option<Seq<char>>,
    k: int,
    g: GroupView,
) -> bool {
    &&& c.item_id@ == item_id
    &&& c.chunk_id@ == colon_joined(id_base, decimal(k as nat))
    &&& c.source@ == source
    &&& c.kind == ItemKind::Session
    &&& opt_view(c.title) == title
    &&& c.timestamp == g.timestamp
    &&& c.ordinal == k
    &&& c.content@ == g.content
    &&& opt_view(c.role) == chunk_role(always_user, g)
    &&& opt_view(c.path) == path
}

/// Chunk id `base:k`.
pub fn numbered_id(base: &str, k: u32) -> (id: String)
    ensures
        id@ == colon_joined(base@, decimal(k as nat)),
{
    let mut id = String::new();
    push_text(&mut id, base);
    push_char(&mut id, ':');
    push_decimal(&mut id, k as u64);
    assert(id@ =~= colon_joined(base@, decimal(k as nat)));
    id
}

/// Turns the groups of a session into its chunks, numbered from 0.
pub fn session_chunks(
    groups: &Vec<TurnGroup>,
    item_id: &str,
    id_base: &str,
    source: &str,
    title: &Option<String>,
    always_user: bool,
    path: &Option<String>,
) -> (chunks: Vec<ItemChunk>)
    requires
        groups.len() <= u32::MAX,
    ensures
        chunks.len() == groups.len(),
        forall|k: int|
            0 <= k < chunks.len() ==> is_session_chunk(
                #[trigger] chunks@[k],
                item_id@,
                id_base@,
                source@,
                opt_view(*title),
                always_user,
                opt_view(*path),
                k,
                groups@[k]@,
            ),
{
    let mut chunks: Vec<ItemChunk> = Vec::new();
    let mut k: usize = 0;
    while k < groups.len()
        invariant
            k <= groups.len() <= u32::MAX,
            chunks.len() == k,
            forall|j: int|
                0 <= j < k ==> is_session_chunk(
                    #[trigger] chunks@[j],
                    item_id@,
                    id_base@,
                    source@,
                    opt_view(*title),
                    always_user,
                    opt_view(*path),
                    j,
                    groups@[j]@,
                ),
        decreases groups.len() - k,
    {
        let g = &groups[k];
        let role = if always_user || g.has_user {
            Some(String::from_str("user"))
        } else {
            None
        };
        let chunk = ItemChunk {
            item_id: String::from_str(item_id),
            chunk_id: numbered_id(id_base, k as u32),
            source: String::from_str(source),
            kind: ItemKind::Session,
            title: copy_opt(title),
            timestamp: g.timestamp,
            ordinal: k as u32,
            content: g.content.clone(),
            role,
            path: copy_opt(path),
        };
        chunks.push(chunk);
        k += 1;
    }
    chunks
}

} // verus!
