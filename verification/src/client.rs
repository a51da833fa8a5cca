//! The interactive client: the records it shows and how it reads a command
//! line.
use vstd::prelude::*;
use vstd::string::StringSliceAdditionalSpecFns;
use vstd::utf8::{decode_utf8, encode_utf8, is_char_boundary, valid_utf8};
use crate::crypto::{hex_encode, hex_text};
use crate::encoding::{to_lowercase, unicode_lower, utf8_text};
use crate::text::{concat, find_char, first_index_of, owned, substring, trim, trim_spec};
use crate::node_id::NodeId;
use crate::crypto::is_hex_text;
use crate::relay::{decimal, decimal_text, opt_text, texts, utf8_lossy, utf8_lossy_text, InboxEntry, RelayResponse};

verus! {

/// One node as the client lists it.
#[derive(Clone, Debug)]
pub struct NodeInfo {
    /// Short hexadecimal prefix of the node's id.
    pub id: String,
    pub index: usize,
    pub alive: bool,
    pub healthy: bool,
    pub slots: usize,
}

/// A command of the interactive client.
pub enum Command {
    Help,
    Nodes,
    Stats,
    /// Show the peer table of a node.
    Peers(String),
    /// Ping a node.
    Ping(String),
    /// `ping` without its target.
    PingUsage,
    /// Send a text to a node and wait for the answer.
    Rpc(String, String),
    /// `rpc` without its target or text.
    RpcUsage,
    Inbox,
    /// Advance the simulation this many ticks.
    Step(usize),
    /// Show, or set to the given value, the drop probability.
    Drop(Option<String>),
    Quit,
    /// Not a command; the word as read, in lower case.
    Unknown(String),
}

/// The text of a line worth reading: trimmed, and neither empty nor a
/// comment.
pub open spec fn command_text(line: Seq<char>) -> Option<Seq<char>> {
    let t = trim_spec(line);
    if t.len() == 0 || t[0] == '#' {
        None
    } else {
        Some(t)
    }
}

/// The command text of an input line, if it holds one.
pub fn command_line(line: &str) -> (r: Option<String>)
    ensures
        match command_text(line@) {
            Some(t) => (r matches Some(x) && x@ == t),
            None => r is None,
        },
{
    let t = trim(line);
    if t.as_str().unicode_len() == 0 || t.as_str().get_char(0) == '#' {
        None
    } else {
        Some(t)
    }
}

/// `s.splitn(n, ' ')`: at most `n` pieces, split at the first `n - 1`
/// spaces.
pub open spec fn split_n(s: Seq<char>, n: nat) -> Seq<Seq<char>>
    decreases n,
{
    if n <= 1 {
        seq![s]
    } else if exists|i: int| first_index_of(s, ' ', i) {
        let i = choose|i: int| first_index_of(s, ' ', i);
        seq![s.take(i)] + split_n(s.skip(i + 1), (n - 1) as nat)
    } else {
        seq![s]
    }
}

/// Splits at the first `n - 1` spaces.
pub fn split_spaces(s: &str, n: usize) -> (r: Vec<String>)
    requires
        n >= 1,
    ensures
        r@.len() >= 1,
        r@.len() <= n,
        r@.map_values(|x: String| x@) == split_n(s@, n as nat),
    decreases n,
{
    if n == 1 {
        let mut v: Vec<String> = Vec::new();
        v.push(owned(s));
        assert(v@.map_values(|x: String| x@) =~= seq![s@]);
        return v;
    }
    match find_char(s, ' ') {
        Some(i) => {
            proof {
                let c = choose|j: int| first_index_of(s@, ' ', j);
                assert(c == i as int);
            }
            let len = s.unicode_len();
            let head = substring(s, 0, i);
            let tail = substring(s, i + 1, len);
            assert(head@ =~= s@.take(i as int));
            assert(tail@ =~= s@.skip(i + 1));
            let rest = split_spaces(tail.as_str(), n - 1);
            let mut v: Vec<String> = Vec::new();
            v.push(head);
            let mut k: usize = 0;
            while k < rest.len()
                invariant
                    k <= rest@.len(),
                    v@.len() == k + 1,
                    v@[0]@ == s@.take(i as int),
                    forall|q: int| 0 <= q < k ==> v@[q + 1]@ == rest@[q]@,
                decreases rest@.len() - k,
            {
                v.push(rest[k].clone());
                k = k + 1;
            }
            assert(v@.map_values(|x: String| x@) =~= seq![s@.take(i as int)] + rest@.map_values(
                |x: String| x@,
            ));
            v
        },
        None => {
            assert(!exists|j: int| first_index_of(s@, ' ', j));
            let mut v: Vec<String> = Vec::new();
            v.push(owned(s));
            assert(v@.map_values(|x: String| x@) =~= seq![s@]);
            v
        },
    }
}

/// Whether a text is a run of decimal digits.
pub open spec fn all_digits(s: Seq<char>) -> bool {
    forall|i: int| 0 <= i < s.len() ==> '0' <= #[trigger] s[i] && s[i] <= '9'
}

/// The number a run of decimal digits denotes.
pub open spec fn digits_value(s: Seq<char>) -> int
    decreases s.len(),
{
    if s.len() == 0 {
        0
    } else {
        digits_value(s.drop_last()) * 10 + (s.last() as int - '0' as int)
    }
}

/// What `usize::from_str` gives: an optional `+`, then at least one digit,
/// the value fitting in `usize`.
pub open spec fn usize_text(s: Seq<char>) -> Option<usize> {
    let d = if s.len() > 0 && s[0] == '+' {
        s.skip(1)
    } else {
        s
    };
    if d.len() > 0 && all_digits(d) && digits_value(d) <= usize::MAX {
        Some(digits_value(d) as usize)
    } else {
        None
    }
}

proof fn lemma_digits_grow(s: Seq<char>, k: int)
    requires
        all_digits(s),
        0 <= k <= s.len(),
    ensures
        digits_value(s.take(k)) <= digits_value(s),
        0 <= digits_value(s.take(k)),
    decreases s.len() - k,
{
    if k < s.len() {
        lemma_digits_grow(s, k + 1);
        assert(s.take(k + 1).drop_last() =~= s.take(k));
        lemma_digits_nonneg(s.take(k));
    } else {
        assert(s.take(k) =~= s);
        lemma_digits_nonneg(s);
    }
}

proof fn lemma_digits_nonneg(s: Seq<char>)
    requires
        all_digits(s),
    ensures
        0 <= digits_value(s),
    decreases s.len(),
{
    if s.len() > 0 {
        assert(all_digits(s.drop_last()));
        lemma_digits_nonneg(s.drop_last());
    }
}

/// Parses a decimal `usize`, as `str::parse::<usize>` does.
pub fn parse_usize(s: &str) -> (r: Option<usize>)
    ensures
        r == usize_text(s@),
{
    let n = s.unicode_len();
    let start: usize = if n > 0 && s.get_char(0) == '+' {
        1
    } else {
        0
    };
    let ghost d = if s@.len() > 0 && s@[0] == '+' {
        s@.skip(1)
    } else {
        s@
    };
    assert(d =~= s@.skip(start as int));
    if start == n {
        return None;
    }
    let mut acc: usize = 0;
    let mut i: usize = start;
    while i < n
        invariant
            start <= i <= n,
            n == s@.len(),
            d == s@.skip(start as int),
            d == (if s@.len() > 0 && s@[0] == '+' { s@.skip(1) } else { s@ }),
            all_digits(d.take(i - start)),
            acc as int == digits_value(d.take(i - start)),
        decreases n - i,
    {
        let c = s.get_char(i);
        proof {
            assert(d.take(i - start + 1).drop_last() =~= d.take(i - start));
            assert(d.take(i - start + 1).last() == c);
        }
        if c < '0' || c > '9' {
            proof {
                assert(d[i - start] == c);
                assert(!all_digits(d));
                assert(usize_text(s@) is None);
            }
            return None;
        }
        let v: usize = (c as u32 - 48) as usize;
        match acc.checked_mul(10) {
            Some(x) => match x.checked_add(v) {
                Some(y) => {
                    acc = y;
                },
                None => {
                    proof {
                        if all_digits(d) {
                            lemma_digits_grow(d, i - start + 1);
                            assert(digits_value(d.take(i - start + 1)) == acc * 10 + v);
                        }
                        assert(usize_text(s@) is None);
                    }
                    return None;
                },
            },
            None => {
                proof {
                    if all_digits(d) {
                        lemma_digits_grow(d, i - start + 1);
                        assert(digits_value(d.take(i - start + 1)) >= acc * 10);
                    }
                }
                return None;
            },
        }
        i = i + 1;
    }
    assert(d.take(i - start) =~= d);
    Some(acc)
}

/// The command a line of text names.
pub open spec fn command_spec(line: Seq<char>, r: Command) -> bool {
    let parts = split_n(line, 4);
    let word = unicode_lower(parts[0]);
    if word == "help"@ || word == "?"@ {
        r is Help
    } else if word == "nodes"@ {
        r is Nodes
    } else if word == "stats"@ {
        r is Stats
    } else if word == "peers"@ {
        r matches Command::Peers(x) && x@ == (if parts.len() > 1 { parts[1] } else { "0"@ })
    } else if word == "ping"@ {
        if parts.len() < 2 {
            r is PingUsage
        } else {
            r matches Command::Ping(x) && x@ == parts[1]
        }
    } else if word == "rpc"@ {
        if parts.len() < 3 {
            r is RpcUsage
        } else {
            r matches Command::Rpc(to, text) && to@ == parts[1] && text@ == (if parts.len() > 3 {
                parts[2] + " "@ + parts[3]
            } else {
                parts[2]
            })
        }
    } else if word == "inbox"@ {
        r is Inbox
    } else if word == "step"@ {
        r matches Command::Step(n) && n == (if parts.len() > 1 && usize_text(parts[1]) is Some {
            usize_text(parts[1])->0
        } else {
            10
        })
    } else if word == "drop"@ {
        r matches Command::Drop(p) && match p {
            Some(x) => parts.len() > 1 && x@ == parts[1],
            None => parts.len() <= 1,
        }
    } else if word == "quit"@ || word == "exit"@ || word == "q"@ {
        r is Quit
    } else {
        r matches Command::Unknown(x) && x@ == word
    }
}

/// Reads a command line: its first word, in lower case, names the command;
/// up to three more space-separated pieces are its arguments.
pub fn parse_command(line: &str) -> (r: Command)
    ensures
        command_spec(line@, r),
{
    let parts = split_spaces(line, 4);
    let ghost ps = parts@.map_values(|x: String| x@);
    assert(ps[0] == parts@[0]@);
    let word = to_lowercase(parts[0].as_str());
    let w = word.as_str();
    if crate::text::text_eq(w, "help") || crate::text::text_eq(w, "?") {
        Command::Help
    } else if crate::text::text_eq(w, "nodes") {
        Command::Nodes
    } else if crate::text::text_eq(w, "stats") {
        Command::Stats
    } else if crate::text::text_eq(w, "peers") {
        if parts.len() > 1 {
            assert(ps[1] == parts@[1]@);
            Command::Peers(parts[1].clone())
        } else {
            Command::Peers(owned("0"))
        }
    } else if crate::text::text_eq(w, "ping") {
        if parts.len() < 2 {
            Command::PingUsage
        } else {
            assert(ps[1] == parts@[1]@);
            Command::Ping(parts[1].clone())
        }
    } else if crate::text::text_eq(w, "rpc") {
        if parts.len() < 3 {
            Command::RpcUsage
        } else {
            assert(ps[1] == parts@[1]@);
            assert(ps[2] == parts@[2]@);
            let text = if parts.len() > 3 {
                assert(ps[3] == parts@[3]@);
                let a = concat(parts[2].as_str(), " ");
                concat(a.as_str(), parts[3].as_str())
            } else {
                parts[2].clone()
            };
            Command::Rpc(parts[1].clone(), text)
        }
    } else if crate::text::text_eq(w, "inbox") {
        Command::Inbox
    } else if crate::text::text_eq(w, "step") {
        let n = if parts.len() > 1 {
            assert(ps[1] == parts@[1]@);
            match parse_usize(parts[1].as_str()) {
                Some(k) => k,
                None => 10,
            }
        } else {
            10
        };
        Command::Step(n)
    } else if crate::text::text_eq(w, "drop") {
        if parts.len() > 1 {
            assert(ps[1] == parts@[1]@);
            Command::Drop(Some(parts[1].clone()))
        } else {
            Command::Drop(None)
        }
    } else if crate::text::text_eq(w, "quit") || crate::text::text_eq(w, "exit") || crate::text::text_eq(w, "q") {
        Command::Quit
    } else {
        Command::Unknown(word)
    }
}

/// How a target is shown: a full 64-byte id by its first eight bytes and
/// an ellipsis, anything else as it is.
pub fn display_target(to: &str) -> (r: String)
    requires
        encode_utf8(to@).len() == 64 ==> is_char_boundary(encode_utf8(to@), 8),
    ensures
        encode_utf8(to@).len() == 64 ==> r@ == decode_utf8(encode_utf8(to@).take(8)) + "\u{2026}"@,
        encode_utf8(to@).len() != 64 ==> r@ == to@,
{
    let b = to.as_bytes();
    if b.len() == 64 {
        let (head, _) = to.split_at(8);
        let r = concat(head, "\u{2026}");
        proof {
            vstd::utf8::encode_utf8_decode_utf8(head@);
            assert(encode_utf8(to@).take(8) =~= encode_utf8(to@).subrange(0, 8));
        }
        r
    } else {
        owned(to)
    }
}

/// How an answer is shown: as text when it is UTF-8, else as `0x` and its
/// hexadecimal digits.
pub fn answer_text(resp: Vec<u8>) -> (r: String)
    ensures
        valid_utf8(resp@) ==> r@ == decode_utf8(resp@),
        !valid_utf8(resp@) ==> r@ == "0x"@ + hex_text(resp@),
{
    let copy = crate::wire::copy_bytes(&resp);
    match utf8_text(resp) {
        Some(s) => s,
        None => {
            let h = hex_encode(copy.as_slice());
            concat("0x", h.as_str())
        },
    }
}

/// Whether `p` is a prefix of `s`.
pub open spec fn has_prefix(s: Seq<char>, p: Seq<char>) -> bool {
    p.len() <= s.len() && s.take(p.len() as int) == p
}

/// Whether `p` is a prefix of `s`.
pub fn starts_with(s: &str, p: &str) -> (r: bool)
    ensures
        r == has_prefix(s@, p@),
{
    let n = s.unicode_len();
    let m = p.unicode_len();
    if m > n {
        return false;
    }
    let mut i: usize = 0;
    while i < m
        invariant
            n == s@.len(),
            m == p@.len(),
            m <= n,
            i <= m,
            forall|j: int| 0 <= j < i ==> s@[j] == p@[j],
        decreases m - i,
    {
        if s.get_char(i) != p.get_char(i) {
            assert(s@.take(m as int)[i as int] != p@[i as int]);
            return false;
        }
        i = i + 1;
    }
    assert(s@.take(m as int) =~= p@);
    true
}

/// Whether a list slot holds a live node whose id, in hexadecimal, starts
/// with `p`.
pub open spec fn live_with_prefix(o: Option<NodeId>, p: Seq<char>) -> bool {
    o matches Some(x) && has_prefix(hex_text(x.0@), p)
}

/// The first live node whose id, in hexadecimal, starts with `p`.
pub open spec fn first_with_prefix(nodes: Seq<Option<NodeId>>, p: Seq<char>, i: int) -> bool {
    &&& 0 <= i < nodes.len()
    &&& live_with_prefix(nodes[i], p)
    &&& forall|j: int| 0 <= j < i ==> !(#[trigger] live_with_prefix(nodes[j], p))
}

/// The node a reference names: by its index in the list when the
/// reference is a number (none when that slot is empty or out of range),
/// else the first live node whose id starts with the reference in lower
/// case.
pub fn resolve_node(nodes: &Vec<Option<NodeId>>, s: &str) -> (r: Option<NodeId>)
    ensures
        usize_text(s@) matches Some(i) ==> r == (if i < nodes@.len() { nodes@[i as int] } else { None }),
        usize_text(s@) is None ==> match r {
            Some(id) => exists|i: int| first_with_prefix(nodes@, unicode_lower(s@), i) && nodes@[i] == Some(id),
            None => forall|i: int| 0 <= i < nodes@.len() ==> !(#[trigger] live_with_prefix(nodes@[i], unicode_lower(s@))),
        },
{
    match parse_usize(s) {
        Some(i) => {
            if i < nodes.len() {
                nodes[i]
            } else {
                None
            }
        },
        None => {
            let lower = to_lowercase(s);
            let mut k: usize = 0;
            while k < nodes.len()
                invariant
                    k <= nodes@.len(),
                    lower@ == unicode_lower(s@),
                    usize_text(s@) is None,
                    forall|j: int| 0 <= j < k ==> !(#[trigger] live_with_prefix(nodes@[j], lower@)),
                decreases nodes@.len() - k,
            {
                match nodes[k] {
                    Some(id) => {
                        if starts_with(id.to_hex().as_str(), lower.as_str()) {
                            assert(first_with_prefix(nodes@, lower@, k as int));
                            return Some(id);
                        }
                    },
                    None => {},
                }
                k = k + 1;
            }
            None
        },
    }
}

/// The first of `ids` that starts with `p`.
pub open spec fn first_id_with_prefix(ids: Seq<Seq<char>>, p: Seq<char>, i: int) -> bool {
    &&& 0 <= i < ids.len()
    &&& has_prefix(ids[i], p)
    &&& forall|j: int| 0 <= j < i ==> !(#[trigger] has_prefix(ids[j], p))
}

/// The full id a reference names among the known ids: by index when it is
/// a number; itself, in lower case, when it is 64 hexadecimal digits;
/// else the first known id it, in lower case, is a prefix of.
pub fn resolve_node_id(ids: &Vec<String>, to: &str) -> (r: Result<String, String>)
    ensures
        usize_text(to@) matches Some(i) ==> if i < ids@.len() {
            (r matches Ok(x) && x@ == ids@[i as int]@)
        } else {
            (r matches Err(e) && e@ == "node index "@ + decimal(i as nat) + " out of range (have "@ + decimal(
                ids@.len()) + " nodes)"@)
        },
        usize_text(to@) is None && is_hex_text(to@) && to@.len() == 64 ==> (r matches Ok(x) && x@ == unicode_lower(to@)),
        usize_text(to@) is None && !(is_hex_text(to@) && to@.len() == 64) ==> match r {
            Ok(x) => exists|i: int| first_id_with_prefix(texts(ids@), unicode_lower(to@), i) && x@ == ids@[i]@,
            Err(e) => e@ == "no known node matching prefix '"@ + to@ + "'"@ && forall|i: int| 0 <= i < ids@.len()
                ==> !has_prefix(ids@[i]@, unicode_lower(to@)),
        },
{
    match parse_usize(to) {
        Some(i) => {
            if i < ids.len() {
                Ok(ids[i].clone())
            } else {
                let a = concat("node index ", decimal_text(i).as_str());
                let b = concat(a.as_str(), " out of range (have ");
                let c = concat(b.as_str(), decimal_text(ids.len()).as_str());
                Err(concat(c.as_str(), " nodes)"))
            }
        },
        None => {
            if to.unicode_len() == 64 && crate::fetch::validate_hex_node_id(to).is_ok() {
                return Ok(to_lowercase(to));
            }
            let lower = to_lowercase(to);
            let mut k: usize = 0;
            while k < ids.len()
                invariant
                    k <= ids@.len(),
                    lower@ == unicode_lower(to@),
                    usize_text(to@) is None,
                    !(is_hex_text(to@) && to@.len() == 64),
                    forall|j: int| 0 <= j < k ==> !has_prefix(ids@[j]@, lower@),
                decreases ids@.len() - k,
            {
                if starts_with(ids[k].as_str(), lower.as_str()) {
                    assert(texts(ids@)[k as int] == ids@[k as int]@);
                    assert forall|j: int| 0 <= j < k implies !has_prefix(texts(ids@)[j], lower@) by {
                        assert(texts(ids@)[j] == ids@[j]@);
                    }
                    assert(first_id_with_prefix(texts(ids@), lower@, k as int));
                    return Ok(ids[k].clone());
                }
                k = k + 1;
            }
            let a = concat("no known node matching prefix '", to);
            Err(concat(a.as_str(), "'"))
        },
    }
}

/// What a relayed request's answer gives the client: the handler's
/// response, or why there is none.
pub fn rpc_result(reply: RelayResponse) -> (r: Result<Vec<u8>, String>)
    ensures
        !reply.delivered ==> (r matches Err(e) && e@ == "relay failed: "@ + match reply.error {
            Some(m) => m@,
            None => "not delivered"@,
        }),
        reply.delivered && reply.response is None ==> (r matches Err(e)
            && e@ == "packet delivered but server returned no response"@),
        reply.delivered ==> (reply.response matches Some(t) ==> (r matches Ok(v) && v@ == encode_utf8(t@))),
{
    if !reply.delivered {
        let m = match reply.error {
            Some(m) => m,
            None => owned("not delivered"),
        };
        return Err(concat("relay failed: ", m.as_str()));
    }
    match reply.response {
        Some(t) => {
            let mut v: Vec<u8> = Vec::new();
            crate::wire::push_raw(&mut v, t.as_str().as_bytes());
            assert(v@ =~= encode_utf8(t@));
            Ok(v)
        },
        None => Err(owned("packet delivered but server returned no response")),
    }
}

/// The views of inbox entries.
pub open spec fn entry_views(v: Seq<InboxEntry>) -> Seq<(Seq<char>, Seq<char>)> {
    v.map_values(|e: InboxEntry| (e.from@, e.text@))
}

/// The entries with repeats left out: each `(from, text)` pair kept at its
/// first occurrence, in order.
pub open spec fn first_occurrences(v: Seq<(Seq<char>, Seq<char>)>) -> Seq<(Seq<char>, Seq<char>)>
    decreases v.len(),
{
    if v.len() == 0 {
        Seq::empty()
    } else {
        let r = first_occurrences(v.drop_last());
        if v.drop_last().contains(v.last()) {
            r
        } else {
            r.push(v.last())
        }
    }
}

/// Merges inboxes read from several nodes: an entry seen before is left
/// out.
pub fn merge_inboxes(entries: Vec<InboxEntry>) -> (r: Vec<InboxEntry>)
    ensures
        entry_views(r@) == first_occurrences(entry_views(entries@)),
{
    let ghost v = entry_views(entries@);
    let mut r: Vec<InboxEntry> = Vec::new();
    let mut i: usize = 0;
    while i < entries.len()
        invariant
            i <= entries@.len(),
            v == entry_views(entries@),
            entry_views(r@) == first_occurrences(v.take(i as int)),
        decreases entries@.len() - i,
    {
        proof {
            assert(v.take(i + 1).drop_last() =~= v.take(i as int));
            assert(v.take(i + 1).last() == v[i as int]);
        }
        let mut seen = false;
        let mut j: usize = 0;
        while j < i
            invariant
                j <= i,
                i < entries@.len(),
                v == entry_views(entries@),
                seen == exists|k: int| 0 <= k < j && v[k] == v[i as int],
            decreases i - j,
        {
            if crate::text::text_eq(entries[j].from.as_str(), entries[i].from.as_str())
                && crate::text::text_eq(entries[j].text.as_str(), entries[i].text.as_str()) {
                assert(v[j as int] == v[i as int]);
                seen = true;
            }
            j = j + 1;
        }
        proof {
            if seen {
                let k = choose|k: int| 0 <= k < i && v[k] == v[i as int];
                assert(v.take(i as int)[k] == v[i as int]);
            } else {
                assert forall|k: int| 0 <= k < v.take(i as int).len() implies v.take(i as int)[k] != v[i as int] by {}
            }
        }
        if !seen {
            let ghost before = r@;
            r.push(InboxEntry { from: entries[i].from.clone(), text: entries[i].text.clone() });
            assert(entry_views(r@) =~= entry_views(before).push(v[i as int]));
        }
        i = i + 1;
    }
    assert(v.take(i as int) =~= v);
    r
}

/// The position of a node in a list, as shown: its decimal index, or `?`
/// when it is not there.
pub fn index_text(ids: &Vec<String>, x: &String) -> (r: String)
    ensures
        (exists|i: int| 0 <= i < ids@.len() && ids@[i]@ == x@) ==> exists|i: int| 0 <= i < ids@.len()
            && ids@[i]@ == x@ && r@ == decimal(i as nat) && forall|j: int| 0 <= j < i ==> ids@[j]@ != x@,
        !(exists|i: int| 0 <= i < ids@.len() && ids@[i]@ == x@) ==> r@ == "?"@,
{
    let mut i: usize = 0;
    while i < ids.len()
        invariant
            i <= ids@.len(),
            forall|j: int| 0 <= j < i ==> ids@[j]@ != x@,
        decreases ids@.len() - i,
    {
        if crate::text::text_eq(ids[i].as_str(), x.as_str()) {
            return decimal_text(i);
        }
        i = i + 1;
    }
    owned("?")
}

/// What the simulated server answers when a route reached its node: the
/// number of hops and the payload read as text.
pub fn sandbox_echo(hops: usize, payload: &[u8]) -> (r: Vec<u8>)
    ensures
        r@ == encode_utf8("[sandbox] routed in "@ + decimal(hops as nat) + " hop(s) \u{2014} echo: "@ + utf8_lossy_text(payload@)),
{
    let a = concat("[sandbox] routed in ", decimal_text(hops).as_str());
    let b = concat(a.as_str(), " hop(s) \u{2014} echo: ");
    let c = concat(b.as_str(), utf8_lossy(payload).as_str());
    let mut v: Vec<u8> = Vec::new();
    crate::wire::push_raw(&mut v, c.as_str().as_bytes());
    assert(v@ =~= encode_utf8(c@));
    v
}

} // verus!
