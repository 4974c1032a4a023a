//! Pretty-printing of values as human-readable text: scalars, quoted and
//! escaped strings, and tables (and structured userdata) rendered
//! recursively, depth- and width-limited, with sorted keys, cycle markers
//! and line wrapping.
//!
//! Values are modelled as plain data: a `PrettyValue` refers to tables and
//! userdata by their index in a `PrettyHeap`, which also records each
//! one's identity address (what cycle detection and key ordering use).
use vstd::prelude::*;
use crate::byte_str::{append_all, append_range, bytes_less, bytes_less_exec, copy_range, lemma_bytes_less_irreflexive, lemma_bytes_less_transitive};
use crate::decimal::{int_decimal, push_decimal};
use crate::format::{digit_byte, hex_digits, push_hex, repeat_byte};
use vstd::utf8::encode_utf8;

verus! {

/// Controls how deeply and how broadly `pretty_print` renders tables.
#[derive(Clone, Copy, Debug)]
pub struct PrettyPrintConfig {
    /// Maximum nesting depth; at the cap `{...}` is emitted.
    pub max_depth: usize,
    /// Maximum number of entries rendered before truncating with `…`.
    pub max_entries: usize,
    /// Width beyond which a table is rendered one entry per line.
    pub wrap_width: usize,
    /// Spaces of indentation per level in the one-entry-per-line form.
    pub indent: usize,
    /// Sort entries by key (integers, then floats, then strings, then
    /// other keys by identity).
    pub sort_keys: bool,
}

impl Default for PrettyPrintConfig {
    fn default() -> (r: Self)
        ensures
            r.max_depth == 4,
            r.max_entries == 32,
            r.wrap_width == 60,
            r.indent == 2,
            r.sort_keys,
    {
        PrettyPrintConfig { max_depth: 4, max_entries: 32, wrap_width: 60, indent: 2, sort_keys: true }
    }
}

/// A value to render.
#[derive(Debug)]
pub enum PrettyValue {
    Nil,
    Boolean(bool),
    Integer(i64),
    /// A float, by the text that the caller rendered for it.
    Float(Vec<u8>),
    Str(Vec<u8>),
    /// A function, by its identity address.
    Function(usize),
    /// The table at this index of the heap.
    Table(usize),
    /// The userdata at this index of the heap.
    Userdata(usize),
}

/// A table: its identity address, whether it is a sequence (rendered
/// without keys), and its entries in iteration order.
#[derive(Debug)]
pub struct PrettyTable {
    pub addr: usize,
    pub is_array: bool,
    pub entries: Vec<(PrettyValue, PrettyValue)>,
}

/// How a userdata renders: opaquely, by a failure to produce its entries,
/// or by the first entries of its map or sequence view (each an entry or
/// the error met reading it), as many as were read.
#[derive(Debug)]
pub enum UserdataShape {
    Opaque,
    Failed(Vec<u8>),
    Pairs(Vec<Result<(PrettyValue, PrettyValue), Vec<u8>>>),
    Items(Vec<Result<PrettyValue, Vec<u8>>>),
}

/// A userdata: its identity address, type label and shape.
#[derive(Debug)]
pub struct PrettyUserdata {
    pub addr: usize,
    pub label: Vec<u8>,
    pub shape: UserdataShape,
}

/// The tables and userdata that values refer to.
#[derive(Debug)]
pub struct PrettyHeap {
    pub tables: Vec<PrettyTable>,
    pub userdata: Vec<PrettyUserdata>,
}

/// Does `v` refer only to tables and userdata present in `h`?
pub open spec fn value_in(h: PrettyHeap, v: PrettyValue) -> bool {
    match v {
        PrettyValue::Table(i) => i < h.tables@.len(),
        PrettyValue::Userdata(i) => i < h.userdata@.len(),
        _ => true,
    }
}

/// Every value of the table is in `h`.
pub open spec fn table_in(h: PrettyHeap, t: PrettyTable) -> bool {
    forall|j: int|
        0 <= j < t.entries@.len() ==> value_in(h, (#[trigger] t.entries@[j]).0) && value_in(
            h,
            t.entries@[j].1,
        )
}

/// Every value that the shape holds is in `h`.
pub open spec fn shape_in(h: PrettyHeap, s: UserdataShape) -> bool {
    match s {
        UserdataShape::Pairs(items) => forall|j: int|
            0 <= j < items@.len() ==> (#[trigger] items@[j] matches Ok(e) ==> value_in(h, e.0)
                && value_in(h, e.1)),
        UserdataShape::Items(items) => forall|j: int|
            0 <= j < items@.len() ==> (#[trigger] items@[j] matches Ok(e) ==> value_in(h, e)),
        _ => true,
    }
}

/// Every reference inside `h` is to a table or userdata of `h`.
pub open spec fn heap_wf(h: PrettyHeap) -> bool {
    &&& forall|i: int| 0 <= i < h.tables@.len() ==> table_in(h, #[trigger] h.tables@[i])
    &&& forall|i: int| 0 <= i < h.userdata@.len() ==> shape_in(h, (#[trigger] h.userdata@[i]).shape)
}

/// What `bstr::decode_utf8` gives for `b`: the scalar value encoded at
/// its start, if it is validly encoded there, and the number of bytes read.
pub uninterp spec fn utf8_decode(b: Seq<u8>) -> (Option<char>, nat);

/// `bstr::decode_utf8`: decode the scalar value at the start of `b`.
/// Claimed, as its documentation and source show: between 1 and 4 bytes
/// are read, at most 3 when the encoding is invalid; a decoded value is
/// encoded by exactly the bytes read; an ASCII byte decodes to itself.
#[verifier::external_body]
fn decode_utf8_at(b: &[u8]) -> (r: (Option<char>, usize))
    requires
        b@.len() > 0,
    ensures
        r.0 == utf8_decode(b@).0 && r.1 as nat == utf8_decode(b@).1,
        1 <= r.1 <= b@.len() && r.1 <= 4,
        r.0 matches Some(c) ==> encode_utf8(seq![c]) == b@.take(r.1 as int),
        r.0 is None ==> r.1 <= 3,
        b@[0] < 128 ==> r.0 == Some(b@[0] as char) && r.1 == 1,
{
    bstr::decode_utf8(b)
}

/// A control character (general category Cc).
pub open spec fn is_control(c: char) -> bool {
    (c as u32) < 0x20 || (0x7f <= (c as u32) && (c as u32) < 0xa0)
}

/// `\x` and the two lower-case hexadecimal digits of `b`.
pub open spec fn hex_byte_escape(b: u8) -> Seq<u8> {
    seq![92u8, 120u8, digit_byte((b / 16) as nat, false), digit_byte((b % 16) as nat, false)]
}

/// Each byte as a `\x` escape.
pub open spec fn hex_escapes(b: Seq<u8>) -> Seq<u8>
    decreases b.len(),
{
    if b.len() == 0 {
        Seq::empty()
    } else {
        hex_escapes(b.drop_last()) + hex_byte_escape(b.last())
    }
}

/// The rendering of the character `c`, encoded by `raw`, inside a string.
pub open spec fn char_escape(c: char, raw: Seq<u8>) -> Seq<u8> {
    if c == '"' {
        seq![92u8, 34u8]
    } else if c == '\\' {
        seq![92u8, 92u8]
    } else if c == '\n' {
        seq![92u8, 110u8]
    } else if c == '\r' {
        seq![92u8, 114u8]
    } else if c == '\t' {
        seq![92u8, 116u8]
    } else if is_control(c) {
        seq![92u8, 117u8, 123u8] + hex_digits(c as u32 as nat, false) + seq![125u8]
    } else {
        raw
    }
}

/// How many bytes the decoding at the start of `b` reads.
pub open spec fn decode_len(b: Seq<u8>) -> int {
    let n = utf8_decode(b).1;
    if 1 <= n <= b.len() {
        n as int
    } else {
        1
    }
}

/// The bytes rendered inside a string: each decoded character escaped,
/// each byte of an invalid encoding as a `\x` escape.
pub open spec fn escaped_text(b: Seq<u8>) -> Seq<u8>
    decreases b.len(),
{
    if b.len() == 0 {
        Seq::empty()
    } else {
        let k = decode_len(b);
        (match utf8_decode(b).0 {
            Some(c) => char_escape(c, b.take(k)),
            None => hex_escapes(b.take(k)),
        }) + escaped_text(b.skip(k))
    }
}

/// A string rendered between double quotes.
pub open spec fn quoted_text(b: Seq<u8>) -> Seq<u8> {
    seq![34u8] + escaped_text(b) + seq![34u8]
}

/// Append the `\x` escapes of `b[a..e]`.
fn push_hex_escapes(out: &mut Vec<u8>, b: &[u8], a: usize, e: usize)
    requires
        a <= e <= b@.len(),
    ensures
        final(out)@ == old(out)@ + hex_escapes(b@.subrange(a as int, e as int)),
{
    let mut i = a;
    while i < e
        invariant
            a <= i <= e <= b@.len(),
            out@ == old(out)@ + hex_escapes(b@.subrange(a as int, i as int)),
        decreases e - i,
    {
        let x = b[i];
        out.push(92u8);
        out.push(120u8);
        out.push(hex_digit(x / 16));
        out.push(hex_digit(x % 16));
        proof {
            assert(b@.subrange(a as int, i + 1).drop_last() =~= b@.subrange(a as int, i as int));
        }
        i = i + 1;
        assert(out@ =~= old(out)@ + hex_escapes(b@.subrange(a as int, i as int)));
    }
}

fn hex_digit(d: u8) -> (r: u8)
    requires
        d < 16,
    ensures
        r == digit_byte(d as nat, false),
{
    if d < 10 {
        48 + d
    } else {
        87 + d
    }
}

/// Append the rendering of the character `c`, encoded by `b[a..e]`.
fn push_char_escape(out: &mut Vec<u8>, c: char, b: &[u8], a: usize, e: usize)
    requires
        a <= e <= b@.len(),
    ensures
        final(out)@ == old(out)@ + char_escape(c, b@.subrange(a as int, e as int)),
{
    if c == '"' {
        out.push(92u8);
        out.push(34u8);
    } else if c == '\\' {
        out.push(92u8);
        out.push(92u8);
    } else if c == '\n' {
        out.push(92u8);
        out.push(110u8);
    } else if c == '\r' {
        out.push(92u8);
        out.push(114u8);
    } else if c == '\t' {
        out.push(92u8);
        out.push(116u8);
    } else {
        let u = c as u32;
        if u < 0x20 || (0x7f <= u && u < 0xa0) {
            out.push(92u8);
            out.push(117u8);
            out.push(123u8);
            push_hex(out, u as u64, false);
            out.push(125u8);
        } else {
            append_range(out, b, a, e);
        }
    }
    assert(out@ =~= old(out)@ + char_escape(c, b@.subrange(a as int, e as int)));
}

/// Render the string `b` between double quotes, escaping as it goes.
pub fn quote_string(b: &[u8]) -> (r: Vec<u8>)
    ensures
        r@ == quoted_text(b@),
{
    let n = b.len();
    let mut out: Vec<u8> = Vec::new();
    out.push(34u8);
    let mut pos: usize = 0;
    assert(b@.skip(0) =~= b@);
    while pos < n
        invariant
            n == b@.len(),
            pos <= n,
            out@ + escaped_text(b@.skip(pos as int)) == seq![34u8] + escaped_text(b@),
        decreases n - pos,
    {
        let rest = &b[pos..n];
        assert(rest@ =~= b@.skip(pos as int));
        let (c, k) = decode_utf8_at(rest);
        let ghost before = out@;
        match c {
            Some(ch) => push_char_escape(&mut out, ch, b, pos, pos + k),
            None => push_hex_escapes(&mut out, b, pos, pos + k),
        }
        proof {
            let t = b@.skip(pos as int);
            assert(t.take(k as int) =~= b@.subrange(pos as int, pos + k));
            assert(t.skip(k as int) =~= b@.skip(pos + k));
            assert(escaped_text(t) == out@.skip(before.len() as int) + escaped_text(b@.skip(pos + k)))
                by {
                assert(out@.skip(before.len() as int) =~= (match utf8_decode(t).0 {
                    Some(c) => char_escape(c, t.take(decode_len(t))),
                    None => hex_escapes(t.take(decode_len(t))),
                }));
            }
            assert(out@ =~= before + out@.skip(before.len() as int));
        }
        pos = pos + k;
    }
    out.push(34u8);
    assert(b@.skip(n as int) =~= Seq::<u8>::empty());
    assert(out@ =~= quoted_text(b@));
    out
}

/// The rank of a key in the sorted order: integers, floats, strings,
/// then everything else.
pub open spec fn key_rank(v: PrettyValue) -> int {
    match v {
        PrettyValue::Integer(_) => 0,
        PrettyValue::Float(_) => 1,
        PrettyValue::Str(_) => 2,
        _ => 3,
    }
}

/// The identity address by which keys that are neither numbers nor
/// strings are ordered (0 for those that have none).
pub open spec fn key_addr(h: PrettyHeap, v: PrettyValue) -> int {
    match v {
        PrettyValue::Function(a) => a as int,
        PrettyValue::Table(i) => h.tables@[i as int].addr as int,
        PrettyValue::Userdata(i) => h.userdata@[i as int].addr as int,
        _ => 0,
    }
}

/// Does the key `a` sort strictly before `b`?  By rank; integers by
/// value, strings byte-wise, floats all alike, the rest by address.
pub open spec fn key_less(h: PrettyHeap, a: PrettyValue, b: PrettyValue) -> bool {
    if key_rank(a) != key_rank(b) {
        key_rank(a) < key_rank(b)
    } else {
        match (a, b) {
            (PrettyValue::Integer(x), PrettyValue::Integer(y)) => x < y,
            (PrettyValue::Str(x), PrettyValue::Str(y)) => bytes_less(x@, y@),
            (PrettyValue::Float(_), PrettyValue::Float(_)) => false,
            _ => key_addr(h, a) < key_addr(h, b),
        }
    }
}

/// Where the key `i` goes in the order `s`: before the first key that
/// sorts strictly after it.
pub open spec fn insert_pos(h: PrettyHeap, keys: Seq<PrettyValue>, s: Seq<int>, i: int) -> int
    decreases s.len(),
{
    if s.len() == 0 {
        0
    } else if key_less(h, keys[i], keys[s[0]]) {
        0
    } else {
        1 + insert_pos(h, keys, s.skip(1), i)
    }
}

/// The indices of the first `n` keys in stably sorted order.
pub open spec fn sort_order(h: PrettyHeap, keys: Seq<PrettyValue>, n: nat) -> Seq<int>
    decreases n,
{
    if n == 0 {
        Seq::empty()
    } else {
        let s = sort_order(h, keys, (n - 1) as nat);
        s.insert(insert_pos(h, keys, s, n - 1), n - 1)
    }
}

/// The indices `0..n` in order.
pub open spec fn identity_order(n: nat) -> Seq<int> {
    Seq::new(n, |i: int| i)
}

fn key_rank_of(v: &PrettyValue) -> (r: u8)
    ensures
        r as int == key_rank(*v),
{
    match v {
        PrettyValue::Integer(_) => 0,
        PrettyValue::Float(_) => 1,
        PrettyValue::Str(_) => 2,
        _ => 3,
    }
}

fn key_addr_of(h: &PrettyHeap, v: &PrettyValue) -> (r: usize)
    requires
        value_in(*h, *v),
    ensures
        r as int == key_addr(*h, *v),
{
    match v {
        PrettyValue::Function(a) => *a,
        PrettyValue::Table(i) => h.tables[*i].addr,
        PrettyValue::Userdata(i) => h.userdata[*i].addr,
        _ => 0,
    }
}

/// Does the key `a` sort strictly before `b`?
fn key_less_exec(h: &PrettyHeap, a: &PrettyValue, b: &PrettyValue) -> (r: bool)
    requires
        value_in(*h, *a),
        value_in(*h, *b),
    ensures
        r == key_less(*h, *a, *b),
{
    let ra = key_rank_of(a);
    let rb = key_rank_of(b);
    if ra != rb {
        return ra < rb;
    }
    match (a, b) {
        (PrettyValue::Integer(x), PrettyValue::Integer(y)) => *x < *y,
        (PrettyValue::Str(x), PrettyValue::Str(y)) => bytes_less_exec(x.as_slice(), y.as_slice()),
        (PrettyValue::Float(_), PrettyValue::Float(_)) => false,
        _ => key_addr_of(h, a) < key_addr_of(h, b),
    }
}

/// The indices of `keys` in stably sorted order.
fn sorted_order(h: &PrettyHeap, keys: &Vec<&PrettyValue>) -> (r: Vec<usize>)
    requires
        forall|j: int| 0 <= j < keys@.len() ==> value_in(*h, *#[trigger] keys@[j]),
    ensures
        r@.len() == keys@.len(),
        forall|j: int| 0 <= j < r@.len() ==> r@[j] as int == sort_order(*h, key_seq(keys@), keys@.len())[j],
{
    let n = keys.len();
    let mut order: Vec<usize> = Vec::new();
    let ghost ks = key_seq(keys@);
    let mut i: usize = 0;
    while i < n
        invariant
            n == keys@.len(),
            ks == key_seq(keys@),
            i <= n,
            forall|j: int| 0 <= j < keys@.len() ==> value_in(*h, *#[trigger] keys@[j]),
            order@.len() == i,
            order_matches(order@, sort_order(*h, ks, i as nat)),
        decreases n - i,
    {
        let ghost s = sort_order(*h, ks, i as nat);
        proof {
            lemma_sort_order_len(*h, ks, i as nat);
        }
        let mut p: usize = 0;
        assert(s.skip(0) =~= s);
        while p < i && !key_less_exec(h, keys[i], keys[order[p]])
            invariant
                n == keys@.len(),
                ks == key_seq(keys@),
                i < n,
                p <= i,
                order@.len() == i,
                s.len() == i,
                forall|j: int| 0 <= j < keys@.len() ==> value_in(*h, *#[trigger] keys@[j]),
                order_matches(order@, s),
                forall|j: int| 0 <= j < i ==> 0 <= #[trigger] s[j] < i,
                insert_pos(*h, ks, s, i as int) == p + insert_pos(*h, ks, s.skip(p as int), i as int),
            decreases i - p,
        {
            proof {
                assert(s.skip(p as int).skip(1) =~= s.skip(p + 1));
                assert(s.skip(p as int)[0] == s[p as int]);
            }
            p = p + 1;
        }
        proof {
            if p < i {
                assert(s.skip(p as int)[0] == s[p as int]);
            } else {
                assert(s.skip(p as int) =~= Seq::<int>::empty());
            }
            assert(insert_pos(*h, ks, s, i as int) == p);
        }
        order.insert(p, i);
        i = i + 1;
        proof {
            assert(sort_order(*h, ks, i as nat) == s.insert(p as int, (i - 1) as int));
            assert forall|j: int| 0 <= j < order@.len() implies order@[j] as int == sort_order(
                *h,
                ks,
                i as nat,
            )[j] by {}
        }
    }
    order
}

/// The keys as values.
pub open spec fn key_seq(keys: Seq<&PrettyValue>) -> Seq<PrettyValue> {
    keys.map_values(|k: &PrettyValue| *k)
}

/// `v` holds the integers `s`.
pub open spec fn order_matches(v: Seq<usize>, s: Seq<int>) -> bool {
    v.len() == s.len() && forall|j: int| 0 <= j < v.len() ==> v[j] as int == #[trigger] s[j]
}

proof fn lemma_sort_order_len(h: PrettyHeap, keys: Seq<PrettyValue>, n: nat)
    ensures
        sort_order(h, keys, n).len() == n,
        forall|j: int| 0 <= j < n ==> 0 <= #[trigger] sort_order(h, keys, n)[j] < n,
    decreases n,
{
    if n > 0 {
        lemma_sort_order_len(h, keys, (n - 1) as nat);
        let s = sort_order(h, keys, (n - 1) as nat);
        lemma_insert_pos_bound(h, keys, s, n - 1);
    }
}

proof fn lemma_insert_pos_bound(h: PrettyHeap, keys: Seq<PrettyValue>, s: Seq<int>, i: int)
    ensures
        0 <= insert_pos(h, keys, s, i) <= s.len(),
    decreases s.len(),
{
    if s.len() > 0 && !key_less(h, keys[i], keys[s[0]]) {
        lemma_insert_pos_bound(h, keys, s.skip(1), i);
    }
}

/// The ellipsis `…` that marks truncation.
pub open spec fn ellipsis() -> Seq<u8> {
    seq![0xe2u8, 0x80u8, 0xa6u8]
}

/// The rows joined by `, `.
pub open spec fn join_rows(rows: Seq<Seq<u8>>) -> Seq<u8>
    decreases rows.len(),
{
    if rows.len() == 0 {
        Seq::empty()
    } else if rows.len() == 1 {
        rows[0]
    } else {
        join_rows(rows.drop_last()) + seq![44u8, 32u8] + rows.last()
    }
}

/// The rows on one line: `{ a, b, … }`.
pub open spec fn compact_form(rows: Seq<Seq<u8>>, truncated: bool) -> Seq<u8> {
    seq![123u8, 32u8] + join_rows(rows) + (if truncated {
        seq![44u8, 32u8] + ellipsis()
    } else {
        Seq::empty()
    }) + seq![32u8, 125u8]
}

/// The index of the first `\n` at or after `i`, or the length.
pub open spec fn next_newline(t: Seq<u8>, i: int) -> int
    decreases t.len() - i,
{
    if i >= t.len() || i < 0 {
        t.len() as int
    } else if t[i] == 10 {
        i
    } else {
        next_newline(t, i + 1)
    }
}

/// A line without the carriage return of its `\r\n` ending.
pub open spec fn drop_cr(l: Seq<u8>) -> Seq<u8> {
    if l.len() > 0 && l.last() == 13 {
        l.drop_last()
    } else {
        l
    }
}

/// The lines of `t` from index `i` on (split at `\n`, a `\r` before it
/// dropped, no empty line after a final `\n`), joined by a newline and
/// `prefix`; `first` when no line came before.
pub open spec fn reindent_from(t: Seq<u8>, i: int, first: bool, prefix: Seq<u8>) -> Seq<u8>
    decreases t.len() - i,
{
    if i >= t.len() || i < 0 {
        Seq::empty()
    } else {
        let k = next_newline(t, i);
        let lead = if first {
            Seq::empty()
        } else {
            seq![10u8] + prefix
        };
        proof {
            lemma_next_newline(t, i);
        }
        if k < t.len() {
            lead + drop_cr(t.subrange(i, k)) + reindent_from(t, k + 1, false, prefix)
        } else {
            lead + t.subrange(i, t.len() as int)
        }
    }
}

/// `t` with `prefix` at the start of every line after the first.
pub open spec fn reindent(t: Seq<u8>, prefix: Seq<u8>) -> Seq<u8> {
    reindent_from(t, 0, true, prefix)
}

pub proof fn lemma_next_newline(t: Seq<u8>, i: int)
    requires
        0 <= i < t.len(),
    ensures
        i <= next_newline(t, i) <= t.len(),
        next_newline(t, i) < t.len() ==> t[next_newline(t, i)] == 10,
        forall|j: int| i <= j < next_newline(t, i) ==> #[trigger] t[j] != 10,
    decreases t.len() - i,
{
    if t[i] == 10 {
    } else if i + 1 < t.len() {
        lemma_next_newline(t, i + 1);
    } else {
        assert(next_newline(t, i + 1) == t.len());
    }
}

/// The rows one per line, indented by `prefix`, each followed by a comma.
pub open spec fn rows_block(rows: Seq<Seq<u8>>, prefix: Seq<u8>) -> Seq<u8>
    decreases rows.len(),
{
    if rows.len() == 0 {
        Seq::empty()
    } else {
        rows_block(rows.drop_last(), prefix) + prefix + reindent(rows.last(), prefix) + seq![
            44u8,
            10u8,
        ]
    }
}

/// The rows one per line between braces.
pub open spec fn multiline_form(rows: Seq<Seq<u8>>, truncated: bool, prefix: Seq<u8>) -> Seq<u8> {
    seq![123u8, 10u8] + rows_block(rows, prefix) + (if truncated {
        prefix + ellipsis() + seq![10u8]
    } else {
        Seq::empty()
    }) + seq![125u8]
}

/// The rows on one line when that has no newline and fits the wrap
/// width, else one per line.
pub open spec fn layout(rows: Seq<Seq<u8>>, c: PrettyPrintConfig, truncated: bool) -> Seq<u8> {
    let cf = compact_form(rows, truncated);
    if !cf.contains(10u8) && cf.len() <= c.wrap_width {
        cf
    } else {
        multiline_form(rows, truncated, repeat_byte(32, c.indent as nat))
    }
}

/// Append `t` with `prefix` at the start of every line after the first.
fn push_reindented(out: &mut Vec<u8>, t: &[u8], prefix: &[u8])
    ensures
        final(out)@ == old(out)@ + reindent(t@, prefix@),
{
    let n = t.len();
    let mut i: usize = 0;
    let mut first = true;
    assert(old(out)@ + reindent_from(t@, 0, true, prefix@) == old(out)@ + reindent(t@, prefix@));
    while i < n
        invariant
            n == t@.len(),
            i <= n,
            out@ + reindent_from(t@, i as int, first, prefix@) == old(out)@ + reindent(t@, prefix@),
        decreases n - i,
    {
        let mut k = i;
        while k < n && t[k] != 10
            invariant
                n == t@.len(),
                i <= k <= n,
                next_newline(t@, k as int) == next_newline(t@, i as int),
            decreases n - k,
        {
            k = k + 1;
        }
        let ghost before = out@;
        let ghost rest = reindent_from(t@, i as int, first, prefix@);
        if !first {
            out.push(10u8);
            append_all(out, prefix);
        }
        if k < n {
            let e = if k > i && t[k - 1] == 13 {
                k - 1
            } else {
                k
            };
            append_range(out, t, i, e);
            proof {
                assert(t@.subrange(i as int, e as int) =~= drop_cr(t@.subrange(i as int, k as int)));
                assert(rest == (if first {
                    Seq::empty()
                } else {
                    seq![10u8] + prefix@
                }) + drop_cr(t@.subrange(i as int, k as int)) + reindent_from(t@, k + 1, false, prefix@));
                assert(out@ + reindent_from(t@, k + 1, false, prefix@) =~= before + rest);
            }
            i = k + 1;
        } else {
            append_range(out, t, i, n);
            proof {
                assert(rest == (if first {
                    Seq::empty()
                } else {
                    seq![10u8] + prefix@
                }) + t@.subrange(i as int, n as int));
                assert(out@ + reindent_from(t@, n as int, false, prefix@) =~= before + rest);
            }
            i = n;
        }
        first = false;
    }
    assert(out@ =~= old(out)@ + reindent(t@, prefix@));
}

/// The views of the rows.
pub open spec fn row_views(rows: Seq<Vec<u8>>) -> Seq<Seq<u8>> {
    rows.map_values(|r: Vec<u8>| r@)
}

/// Does `v` hold a `\n`?
fn has_newline(v: &[u8]) -> (r: bool)
    ensures
        r == v@.contains(10u8),
{
    let n = v.len();
    let mut i: usize = 0;
    while i < n
        invariant
            n == v@.len(),
            i <= n,
            forall|j: int| 0 <= j < i ==> #[trigger] v@[j] != 10,
        decreases n - i,
    {
        if v[i] == 10 {
            assert(v@[i as int] == 10u8);
            return true;
        }
        i = i + 1;
    }
    false
}

/// Append the ellipsis.
fn push_ellipsis(out: &mut Vec<u8>)
    ensures
        final(out)@ == old(out)@ + ellipsis(),
{
    out.push(0xe2u8);
    out.push(0x80u8);
    out.push(0xa6u8);
    assert(out@ =~= old(out)@ + ellipsis());
}

/// Lay the rendered rows out on one line or one per line.
fn layout_rows(rows: &Vec<Vec<u8>>, c: &PrettyPrintConfig, truncated: bool) -> (r: Vec<u8>)
    ensures
        r@ == layout(row_views(rows@), *c, truncated),
{
    let ghost rv = row_views(rows@);
    let n = rows.len();
    let mut cf: Vec<u8> = Vec::new();
    cf.push(123u8);
    cf.push(32u8);
    let mut j: usize = 0;
    while j < n
        invariant
            n == rows@.len(),
            rv == row_views(rows@),
            j <= n,
            cf@ == seq![123u8, 32u8] + join_rows(rv.take(j as int)),
        decreases n - j,
    {
        let ghost before = cf@;
        if j > 0 {
            cf.push(44u8);
            cf.push(32u8);
        }
        append_all(&mut cf, rows[j].as_slice());
        proof {
            assert(rv.take(j + 1).drop_last() =~= rv.take(j as int));
            if j == 0 {
                assert(join_rows(rv.take(1)) == rv[0]);
            }
            assert(cf@ =~= seq![123u8, 32u8] + join_rows(rv.take(j + 1)));
        }
        j = j + 1;
    }
    assert(rv.take(n as int) =~= rv);
    if truncated {
        cf.push(44u8);
        cf.push(32u8);
        push_ellipsis(&mut cf);
    }
    cf.push(32u8);
    cf.push(125u8);
    assert(cf@ =~= compact_form(rv, truncated));
    if !has_newline(cf.as_slice()) && cf.len() <= c.wrap_width {
        return cf;
    }
    let mut pfx: Vec<u8> = Vec::new();
    let mut q: usize = 0;
    while q < c.indent
        invariant
            q <= c.indent,
            pfx@ == repeat_byte(32, q as nat),
        decreases c.indent - q,
    {
        pfx.push(32u8);
        q = q + 1;
        assert(pfx@ =~= repeat_byte(32, q as nat));
    }
    let mut out: Vec<u8> = Vec::new();
    out.push(123u8);
    out.push(10u8);
    let mut k: usize = 0;
    while k < n
        invariant
            n == rows@.len(),
            rv == row_views(rows@),
            k <= n,
            pfx@ == repeat_byte(32, c.indent as nat),
            out@ == seq![123u8, 10u8] + rows_block(rv.take(k as int), pfx@),
        decreases n - k,
    {
        append_all(&mut out, pfx.as_slice());
        push_reindented(&mut out, rows[k].as_slice(), pfx.as_slice());
        out.push(44u8);
        out.push(10u8);
        proof {
            assert(rv.take(k + 1).drop_last() =~= rv.take(k as int));
            assert(out@ =~= seq![123u8, 10u8] + rows_block(rv.take(k + 1), pfx@));
        }
        k = k + 1;
    }
    if truncated {
        append_all(&mut out, pfx.as_slice());
        push_ellipsis(&mut out);
        out.push(10u8);
    }
    out.push(125u8);
    assert(out@ =~= multiline_form(rv, truncated, pfx@));
    out
}

/// The bytes of an ASCII text.
pub open spec fn ascii_bytes(t: Seq<char>) -> Seq<u8> {
    t.map_values(|ch: char| ch as u8)
}

/// An address as `{:p}` writes it: `0x` and lower-case hexadecimal.
pub open spec fn addr_text(a: usize) -> Seq<u8> {
    seq![48u8, 120u8] + hex_digits(a as nat, false)
}

/// A key that can stand bare before `=`: an ASCII letter or `_`, then
/// letters, digits and `_`.
pub open spec fn is_bare_key(k: Seq<u8>) -> bool {
    &&& k.len() > 0
    &&& (is_alpha(k[0]) || k[0] == 95)
    &&& forall|j: int| 1 <= j < k.len() ==> is_alpha(#[trigger] k[j]) || is_digit_byte(k[j]) || k[j] == 95
}

/// An ASCII letter.
pub open spec fn is_alpha(b: u8) -> bool {
    (65 <= b <= 90) || (97 <= b <= 122)
}

/// An ASCII digit.
pub open spec fn is_digit_byte(b: u8) -> bool {
    48 <= b <= 57
}

/// The keys of the entries.
pub open spec fn keys_of(es: Seq<(PrettyValue, PrettyValue)>) -> Seq<PrettyValue> {
    es.map_values(|e: (PrettyValue, PrettyValue)| e.0)
}

/// The first error among the first `n` items read from a userdata, if any.
pub open spec fn first_pair_error(items: Seq<Result<(PrettyValue, PrettyValue), Vec<u8>>>, n: int) -> Option<Seq<u8>>
    decreases n,
{
    if n <= 0 {
        None
    } else {
        match first_pair_error(items, n - 1) {
            Some(e) => Some(e),
            None => match items[n - 1] {
                Err(e) => Some(e@),
                Ok(_) => None,
            },
        }
    }
}

/// The first error among the first `n` items read from a userdata, if any.
pub open spec fn first_item_error(items: Seq<Result<PrettyValue, Vec<u8>>>, n: int) -> Option<Seq<u8>>
    decreases n,
{
    if n <= 0 {
        None
    } else {
        match first_item_error(items, n - 1) {
            Some(e) => Some(e),
            None => match items[n - 1] {
                Err(e) => Some(e@),
                Ok(_) => None,
            },
        }
    }
}

/// The first `n` items read as entries.
pub open spec fn pair_entries(items: Seq<Result<(PrettyValue, PrettyValue), Vec<u8>>>, n: int) -> Seq<(PrettyValue, PrettyValue)> {
    Seq::new(n as nat, |j: int| items[j]->Ok_0)
}

/// The first `n` items read as the values of a sequence.
pub open spec fn item_entries(items: Seq<Result<PrettyValue, Vec<u8>>>, n: int) -> Seq<(PrettyValue, PrettyValue)> {
    Seq::new(n as nat, |j: int| (PrettyValue::Nil, items[j]->Ok_0))
}

/// The entries in the given order.
pub open spec fn entry_order(es: Seq<(PrettyValue, PrettyValue)>, c: PrettyPrintConfig, sorted: bool, h: PrettyHeap) -> Seq<int> {
    if sorted && c.sort_keys {
        sort_order(h, keys_of(es), es.len())
    } else {
        identity_order(es.len())
    }
}

/// The rendering of a value at nesting depth `depth`, with the addresses
/// of the tables and userdata being rendered around it in `seen`.
pub open spec fn render_value(h: PrettyHeap, v: PrettyValue, c: PrettyPrintConfig, depth: int, seen: Seq<usize>) -> Seq<u8>
    decreases c.max_depth - depth, 4int, 0int,
{
    match v {
        PrettyValue::Nil => ascii_bytes("nil"@),
        PrettyValue::Boolean(b) => if b {
            ascii_bytes("true"@)
        } else {
            ascii_bytes("false"@)
        },
        PrettyValue::Integer(n) => int_decimal(n as int),
        PrettyValue::Float(t) => t@,
        PrettyValue::Str(b) => quoted_text(b@),
        PrettyValue::Function(a) => ascii_bytes("function: "@) + addr_text(a),
        PrettyValue::Table(i) => if i < h.tables@.len() {
            let t = h.tables@[i as int];
            if seen.contains(t.addr) {
                ascii_bytes("<cycle>"@)
            } else if depth >= c.max_depth {
                ascii_bytes("{...}"@)
            } else {
                table_text(h, t.entries@, t.is_array, c, depth, seen.push(t.addr))
            }
        } else {
            Seq::empty()
        },
        PrettyValue::Userdata(i) => if i < h.userdata@.len() {
            let u = h.userdata@[i as int];
            if seen.contains(u.addr) {
                ascii_bytes("<cycle>"@)
            } else {
                match u.shape {
                    UserdataShape::Opaque => u.label@ + ascii_bytes(": "@) + addr_text(u.addr),
                    UserdataShape::Failed(m) => ascii_bytes("<error rendering "@) + u.label@
                        + ascii_bytes(": "@) + m@ + ascii_bytes(">"@),
                    UserdataShape::Pairs(items) => if depth >= c.max_depth {
                        u.label@ + ascii_bytes(" {...}"@)
                    } else {
                        u.label@ + ascii_bytes(" "@) + pairs_text(
                            h,
                            items@,
                            c,
                            depth,
                            seen.push(u.addr),
                        )
                    },
                    UserdataShape::Items(items) => if depth >= c.max_depth {
                        u.label@ + ascii_bytes(" {...}"@)
                    } else {
                        u.label@ + ascii_bytes(" "@) + items_text(
                            h,
                            items@,
                            c,
                            depth,
                            seen.push(u.addr),
                        )
                    },
                }
            }
        } else {
            Seq::empty()
        },
    }
}

/// The rendering of a table's entries.
pub open spec fn table_text(h: PrettyHeap, es: Seq<(PrettyValue, PrettyValue)>, is_array: bool, c: PrettyPrintConfig, depth: int, seen: Seq<usize>) -> Seq<u8>
    decreases c.max_depth - depth, 3int, 0int,
{
    if es.len() == 0 {
        seq![123u8, 125u8]
    } else {
        let order = entry_order(es, c, !is_array, h);
        let m = if es.len() <= c.max_entries {
            es.len() as int
        } else {
            c.max_entries as int
        };
        layout(rows_of(h, es, order.take(m), is_array, c, depth, seen), c, es.len() > c.max_entries)
    }
}

/// An empty rendering of read items: `{ … }` when truncated, else `{}`.
pub open spec fn empty_text(truncated: bool) -> Seq<u8> {
    if truncated {
        seq![123u8, 32u8] + ellipsis() + seq![32u8, 125u8]
    } else {
        seq![123u8, 125u8]
    }
}

/// The rendering of the entries read from a userdata's map view.
pub open spec fn pairs_text(h: PrettyHeap, items: Seq<Result<(PrettyValue, PrettyValue), Vec<u8>>>, c: PrettyPrintConfig, depth: int, seen: Seq<usize>) -> Seq<u8>
    decreases c.max_depth - depth, 3int, 0int,
{
    let n = if items.len() <= c.max_entries {
        items.len() as int
    } else {
        c.max_entries as int
    };
    match first_pair_error(items, n) {
        Some(e) => ascii_bytes("<error rendering entries: "@) + e + ascii_bytes(">"@),
        None => if n == 0 {
            empty_text(items.len() > c.max_entries)
        } else {
            let es = pair_entries(items, n);
            layout(
                rows_of(h, es, entry_order(es, c, true, h), false, c, depth, seen),
                c,
                items.len() > c.max_entries,
            )
        },
    }
}

/// The rendering of the values read from a userdata's sequence view.
pub open spec fn items_text(h: PrettyHeap, items: Seq<Result<PrettyValue, Vec<u8>>>, c: PrettyPrintConfig, depth: int, seen: Seq<usize>) -> Seq<u8>
    decreases c.max_depth - depth, 3int, 0int,
{
    let n = if items.len() <= c.max_entries {
        items.len() as int
    } else {
        c.max_entries as int
    };
    match first_item_error(items, n) {
        Some(e) => ascii_bytes("<error rendering entries: "@) + e + ascii_bytes(">"@),
        None => if n == 0 {
            empty_text(items.len() > c.max_entries)
        } else {
            let es = item_entries(items, n);
            layout(
                rows_of(h, es, identity_order(n as nat), true, c, depth, seen),
                c,
                items.len() > c.max_entries,
            )
        },
    }
}

/// The rendered entries, in the given order.
pub open spec fn rows_of(h: PrettyHeap, es: Seq<(PrettyValue, PrettyValue)>, order: Seq<int>, is_array: bool, c: PrettyPrintConfig, depth: int, seen: Seq<usize>) -> Seq<Seq<u8>>
    decreases c.max_depth - depth, 2int, order.len(),
{
    if order.len() == 0 || depth >= c.max_depth || depth < 0 {
        Seq::empty()
    } else {
        let e = es[order.last()];
        rows_of(h, es, order.drop_last(), is_array, c, depth, seen).push(
            render_entry(h, e.0, e.1, is_array, c, depth, seen),
        )
    }
}

/// One entry: its value alone in a sequence; else `key = value` for a
/// bare key, `[key] = value` for any other.
pub open spec fn render_entry(h: PrettyHeap, k: PrettyValue, v: PrettyValue, is_array: bool, c: PrettyPrintConfig, depth: int, seen: Seq<usize>) -> Seq<u8>
    decreases c.max_depth - depth, 1int, 0int,
{
    if depth >= c.max_depth || depth < 0 {
        Seq::empty()
    } else {
        let vs = render_value(h, v, c, depth + 1, seen);
        if is_array {
            vs
        } else if k is Str && is_bare_key(k->Str_0@) {
            k->Str_0@ + seq![32u8, 61u8, 32u8] + vs
        } else {
            seq![91u8] + render_value(h, k, c, depth + 1, seen) + seq![93u8, 32u8, 61u8, 32u8] + vs
        }
    }
}

/// Append the bytes of the ASCII text `t`.
fn push_ascii(out: &mut Vec<u8>, t: &str)
    requires
        vstd::utf8::is_ascii_chars(t@),
    ensures
        final(out)@ == old(out)@ + ascii_bytes(t@),
{
    proof {
        vstd::utf8::is_ascii_chars_encode_utf8(t@);
    }
    let b = t.as_bytes();
    append_all(out, b);
    assert(b@ =~= ascii_bytes(t@));
}

/// Is the address in `seen`?
fn contains_addr(seen: &Vec<usize>, a: usize) -> (r: bool)
    ensures
        r == seen@.contains(a),
{
    let n = seen.len();
    let mut i: usize = 0;
    while i < n
        invariant
            n == seen@.len(),
            i <= n,
            forall|j: int| 0 <= j < i ==> #[trigger] seen@[j] != a,
        decreases n - i,
    {
        if seen[i] == a {
            assert(seen@[i as int] == a);
            return true;
        }
        i = i + 1;
    }
    false
}

/// `seen` with the address `a` added.
fn with_addr(seen: &Vec<usize>, a: usize) -> (r: Vec<usize>)
    ensures
        r@ == seen@.push(a),
{
    let n = seen.len();
    let mut out: Vec<usize> = Vec::new();
    let mut i: usize = 0;
    while i < n
        invariant
            n == seen@.len(),
            i <= n,
            out@ == seen@.take(i as int),
        decreases n - i,
    {
        out.push(seen[i]);
        i = i + 1;
        assert(out@ =~= seen@.take(i as int));
    }
    out.push(a);
    assert(out@ =~= seen@.push(a));
    out
}

/// Append an address as `{:p}` writes it.
fn push_addr(out: &mut Vec<u8>, a: usize)
    ensures
        final(out)@ == old(out)@ + addr_text(a),
{
    out.push(48u8);
    out.push(120u8);
    push_hex(out, a as u64, false);
    assert(out@ =~= old(out)@ + addr_text(a));
}

/// Can `k` stand bare before `=`?
fn is_bare_key_exec(k: &[u8]) -> (r: bool)
    ensures
        r == is_bare_key(k@),
{
    let n = k.len();
    if n == 0 {
        return false;
    }
    let f = k[0];
    if !((f >= 65 && f <= 90) || (f >= 97 && f <= 122) || f == 95) {
        return false;
    }
    let mut i: usize = 1;
    while i < n
        invariant
            n == k@.len(),
            1 <= i <= n,
            forall|j: int| 1 <= j < i ==> is_alpha(#[trigger] k@[j]) || is_digit_byte(k@[j]) || k@[j]
                == 95,
        decreases n - i,
    {
        let b = k[i];
        if !((b >= 65 && b <= 90) || (b >= 97 && b <= 122) || (b >= 48 && b <= 57) || b == 95) {
            return false;
        }
        i = i + 1;
    }
    true
}

/// The indices `0..n`.
fn identity_indices(n: usize) -> (r: Vec<usize>)
    ensures
        order_matches(r@, identity_order(n as nat)),
{
    let mut out: Vec<usize> = Vec::new();
    let mut i: usize = 0;
    while i < n
        invariant
            i <= n,
            out@.len() == i,
            forall|j: int| 0 <= j < i ==> #[trigger] out@[j] == j,
        decreases n - i,
    {
        out.push(i);
        i = i + 1;
    }
    out
}

/// Render a value at nesting depth `depth`, with the addresses of the
/// tables and userdata being rendered around it in `seen`.
fn render_value_exec(h: &PrettyHeap, v: &PrettyValue, c: &PrettyPrintConfig, depth: usize, seen: &Vec<usize>) -> (r: Vec<u8>)
    requires
        heap_wf(*h),
        value_in(*h, *v),
    ensures
        r@ == render_value(*h, *v, *c, depth as int, seen@),
    decreases c.max_depth - depth, 4int, 0int,
{
    let mut out: Vec<u8> = Vec::new();
    match v {
        PrettyValue::Nil => {
            proof {
                reveal_strlit("nil");
            }
            push_ascii(&mut out, "nil");
        },
        PrettyValue::Boolean(b) => {
            proof {
                reveal_strlit("true");
                reveal_strlit("false");
            }
            if *b {
                push_ascii(&mut out, "true");
            } else {
                push_ascii(&mut out, "false");
            }
        },
        PrettyValue::Integer(n) => {
            push_decimal(&mut out, *n);
        },
        PrettyValue::Float(t) => {
            append_all(&mut out, t.as_slice());
        },
        PrettyValue::Str(b) => {
            return quote_string(b.as_slice());
        },
        PrettyValue::Function(a) => {
            proof {
                reveal_strlit("function: ");
            }
            push_ascii(&mut out, "function: ");
            push_addr(&mut out, *a);
        },
        PrettyValue::Table(i) => {
            let t = &h.tables[*i];
            proof {
                reveal_strlit("<cycle>");
                reveal_strlit("{...}");
            }
            if contains_addr(seen, t.addr) {
                push_ascii(&mut out, "<cycle>");
            } else if depth >= c.max_depth {
                push_ascii(&mut out, "{...}");
            } else {
                let inner = with_addr(seen, t.addr);
                return table_text_exec(h, t, c, depth, &inner);
            }
        },
        PrettyValue::Userdata(i) => {
            let u = &h.userdata[*i];
            proof {
                reveal_strlit("<cycle>");
                reveal_strlit(": ");
                reveal_strlit("<error rendering ");
                reveal_strlit(">");
                reveal_strlit(" {...}");
                reveal_strlit(" ");
            }
            if contains_addr(seen, u.addr) {
                push_ascii(&mut out, "<cycle>");
            } else {
                match &u.shape {
                    UserdataShape::Opaque => {
                        append_all(&mut out, u.label.as_slice());
                        push_ascii(&mut out, ": ");
                        push_addr(&mut out, u.addr);
                    },
                    UserdataShape::Failed(m) => {
                        push_ascii(&mut out, "<error rendering ");
                        append_all(&mut out, u.label.as_slice());
                        push_ascii(&mut out, ": ");
                        append_all(&mut out, m.as_slice());
                        push_ascii(&mut out, ">");
                    },
                    UserdataShape::Pairs(items) => {
                        append_all(&mut out, u.label.as_slice());
                        if depth >= c.max_depth {
                            push_ascii(&mut out, " {...}");
                        } else {
                            push_ascii(&mut out, " ");
                            let inner = with_addr(seen, u.addr);
                            let body = pairs_text_exec(h, items, c, depth, &inner);
                            append_all(&mut out, body.as_slice());
                        }
                    },
                    UserdataShape::Items(items) => {
                        append_all(&mut out, u.label.as_slice());
                        if depth >= c.max_depth {
                            push_ascii(&mut out, " {...}");
                        } else {
                            push_ascii(&mut out, " ");
                            let inner = with_addr(seen, u.addr);
                            let body = items_text_exec(h, items, c, depth, &inner);
                            append_all(&mut out, body.as_slice());
                        }
                    },
                }
            }
        },
    }
    assert(out@ =~= render_value(*h, *v, *c, depth as int, seen@));
    out
}

/// Render one entry.
fn render_entry_exec(h: &PrettyHeap, k: &PrettyValue, v: &PrettyValue, is_array: bool, c: &PrettyPrintConfig, depth: usize, seen: &Vec<usize>) -> (r: Vec<u8>)
    requires
        heap_wf(*h),
        value_in(*h, *k),
        value_in(*h, *v),
        depth < c.max_depth,
    ensures
        r@ == render_entry(*h, *k, *v, is_array, *c, depth as int, seen@),
    decreases c.max_depth - depth, 1int, 0int,
{
    let vs = render_value_exec(h, v, c, depth + 1, seen);
    if is_array {
        return vs;
    }
    let mut out: Vec<u8> = Vec::new();
    let bare = match k {
        PrettyValue::Str(b) => is_bare_key_exec(b.as_slice()),
        _ => false,
    };
    if bare {
        match k {
            PrettyValue::Str(b) => append_all(&mut out, b.as_slice()),
            _ => {},
        }
        out.push(32u8);
        out.push(61u8);
        out.push(32u8);
    } else {
        let ks = render_value_exec(h, k, c, depth + 1, seen);
        out.push(91u8);
        append_all(&mut out, ks.as_slice());
        out.push(93u8);
        out.push(32u8);
        out.push(61u8);
        out.push(32u8);
    }
    append_all(&mut out, vs.as_slice());
    assert(out@ =~= render_entry(*h, *k, *v, is_array, *c, depth as int, seen@));
    out
}

proof fn lemma_rows_step(h: PrettyHeap, es: Seq<(PrettyValue, PrettyValue)>, order: Seq<int>, j: int, is_array: bool, c: PrettyPrintConfig, depth: int, seen: Seq<usize>)
    requires
        0 <= j < order.len(),
        0 <= depth < c.max_depth,
    ensures
        rows_of(h, es, order.take(j + 1), is_array, c, depth, seen) == rows_of(
            h,
            es,
            order.take(j),
            is_array,
            c,
            depth,
            seen,
        ).push(render_entry(h, es[order[j]].0, es[order[j]].1, is_array, c, depth, seen)),
{
    assert(order.take(j + 1).drop_last() =~= order.take(j));
}

/// Render a table's entries.
fn table_text_exec(h: &PrettyHeap, t: &PrettyTable, c: &PrettyPrintConfig, depth: usize, seen: &Vec<usize>) -> (r: Vec<u8>)
    requires
        heap_wf(*h),
        table_in(*h, *t),
        depth < c.max_depth,
    ensures
        r@ == table_text(*h, t.entries@, t.is_array, *c, depth as int, seen@),
    decreases c.max_depth - depth, 3int, 0int,
{
    let n = t.entries.len();
    if n == 0 {
        let mut e: Vec<u8> = Vec::new();
        e.push(123u8);
        e.push(125u8);
        assert(e@ =~= seq![123u8, 125u8]);
        return e;
    }
    let ghost es = t.entries@;
    let order: Vec<usize> = if c.sort_keys && !t.is_array {
        let mut keys: Vec<&PrettyValue> = Vec::new();
        let mut j: usize = 0;
        while j < n
            invariant
                n == t.entries@.len(),
                table_in(*h, *t),
                j <= n,
                keys@.len() == j,
                forall|q: int| 0 <= q < j ==> *#[trigger] keys@[q] == t.entries@[q].0,
            decreases n - j,
        {
            keys.push(&t.entries[j].0);
            j = j + 1;
        }
        assert(key_seq(keys@) =~= keys_of(es));
        let o = sorted_order(h, &keys);
        proof {
            lemma_sort_order_len(*h, keys_of(es), es.len());
        }
        assert(order_matches(o@, entry_order(es, *c, !t.is_array, *h)));
        o
    } else {
        identity_indices(n)
    };
    let ghost ord = entry_order(es, *c, !t.is_array, *h);
    proof {
        if c.sort_keys && !t.is_array {
            lemma_sort_order_len(*h, keys_of(es), es.len());
        }
    }
    let m = if n <= c.max_entries {
        n
    } else {
        c.max_entries
    };
    let mut rows: Vec<Vec<u8>> = Vec::new();
    let mut j: usize = 0;
    while j < m
        invariant
            n == es.len(),
            es == t.entries@,
            m <= n,
            j <= m,
            depth < c.max_depth,
            heap_wf(*h),
            table_in(*h, *t),
            order_matches(order@, ord),
            ord.len() == n,
            forall|q: int| 0 <= q < n ==> 0 <= #[trigger] ord[q] < n,
            row_views(rows@) == rows_of(*h, es, ord.take(j as int), t.is_array, *c, depth as int, seen@),
        decreases m - j,
    {
        assert(order@[j as int] as int == ord[j as int]);
        let idx = order[j];
        let e = &t.entries[idx];
        let row = render_entry_exec(h, &e.0, &e.1, t.is_array, c, depth, seen);
        proof {
            lemma_rows_step(*h, es, ord, j as int, t.is_array, *c, depth as int, seen@);
        }
        rows.push(row);
        j = j + 1;
        assert(row_views(rows@) =~= rows_of(*h, es, ord.take(j as int), t.is_array, *c, depth as int, seen@));
    }
    layout_rows(&rows, c, n > c.max_entries)
}

proof fn lemma_pair_error_stays(items: Seq<Result<(PrettyValue, PrettyValue), Vec<u8>>>, k: int, n: int)
    requires
        0 <= k <= n,
        first_pair_error(items, k) is Some,
    ensures
        first_pair_error(items, n) == first_pair_error(items, k),
    decreases n - k,
{
    if k < n {
        lemma_pair_error_stays(items, k, n - 1);
    }
}

proof fn lemma_item_error_stays(items: Seq<Result<PrettyValue, Vec<u8>>>, k: int, n: int)
    requires
        0 <= k <= n,
        first_item_error(items, k) is Some,
    ensures
        first_item_error(items, n) == first_item_error(items, k),
    decreases n - k,
{
    if k < n {
        lemma_item_error_stays(items, k, n - 1);
    }
}

proof fn lemma_no_pair_error(items: Seq<Result<(PrettyValue, PrettyValue), Vec<u8>>>, n: int, j: int)
    requires
        0 <= j < n,
        first_pair_error(items, n) is None,
    ensures
        items[j] is Ok,
    decreases n,
{
    if j < n - 1 {
        lemma_no_pair_error(items, n - 1, j);
    }
}

proof fn lemma_no_item_error(items: Seq<Result<PrettyValue, Vec<u8>>>, n: int, j: int)
    requires
        0 <= j < n,
        first_item_error(items, n) is None,
    ensures
        items[j] is Ok,
    decreases n,
{
    if j < n - 1 {
        lemma_no_item_error(items, n - 1, j);
    }
}

/// `<error rendering entries: e>`.
fn entries_error(e: &[u8]) -> (r: Vec<u8>)
    ensures
        r@ == ascii_bytes("<error rendering entries: "@) + e@ + ascii_bytes(">"@),
{
    proof {
        reveal_strlit("<error rendering entries: ");
        reveal_strlit(">");
    }
    let mut out: Vec<u8> = Vec::new();
    push_ascii(&mut out, "<error rendering entries: ");
    append_all(&mut out, e);
    push_ascii(&mut out, ">");
    out
}

/// `{ … }` when truncated, else `{}`.
fn empty_text_exec(truncated: bool) -> (r: Vec<u8>)
    ensures
        r@ == empty_text(truncated),
{
    let mut out: Vec<u8> = Vec::new();
    out.push(123u8);
    if truncated {
        out.push(32u8);
        push_ellipsis(&mut out);
        out.push(32u8);
    }
    out.push(125u8);
    assert(out@ =~= empty_text(truncated));
    out
}

/// Render the entries read from a userdata's map view.
fn pairs_text_exec(h: &PrettyHeap, items: &Vec<Result<(PrettyValue, PrettyValue), Vec<u8>>>, c: &PrettyPrintConfig, depth: usize, seen: &Vec<usize>) -> (r: Vec<u8>)
    requires
        heap_wf(*h),
        forall|j: int|
            0 <= j < items@.len() ==> (#[trigger] items@[j] matches Ok(e) ==> value_in(*h, e.0)
                && value_in(*h, e.1)),
        depth < c.max_depth,
    ensures
        r@ == pairs_text(*h, items@, *c, depth as int, seen@),
    decreases c.max_depth - depth, 3int, 0int,
{
    let len = items.len();
    let n = if len <= c.max_entries {
        len
    } else {
        c.max_entries
    };
    let mut j: usize = 0;
    while j < n
        invariant
            n <= len == items@.len(),
            n == (if len <= c.max_entries {
                len
            } else {
                c.max_entries
            }),
            j <= n,
            first_pair_error(items@, j as int) is None,
        decreases n - j,
    {
        match &items[j] {
            Err(e) => {
                proof {
                    assert(first_pair_error(items@, j + 1) == Some(e@));
                    lemma_pair_error_stays(items@, j + 1, n as int);
                }
                return entries_error(e.as_slice());
            },
            Ok(_) => {},
        }
        j = j + 1;
    }
    if n == 0 {
        return empty_text_exec(len > c.max_entries);
    }
    let ghost es = pair_entries(items@, n as int);
    let order: Vec<usize> = if c.sort_keys {
        let mut keys: Vec<&PrettyValue> = Vec::new();
        let mut q: usize = 0;
        while q < n
            invariant
                n <= items@.len(),
                q <= n,
                first_pair_error(items@, n as int) is None,
                es == pair_entries(items@, n as int),
                forall|j: int|
                    0 <= j < items@.len() ==> (#[trigger] items@[j] matches Ok(e) ==> value_in(*h, e.0)
                        && value_in(*h, e.1)),
                keys@.len() == q,
                forall|p: int| 0 <= p < q ==> *#[trigger] keys@[p] == es[p].0,
                forall|p: int| 0 <= p < q ==> value_in(*h, *#[trigger] keys@[p]),
            decreases n - q,
        {
            proof {
                lemma_no_pair_error(items@, n as int, q as int);
            }
            match &items[q] {
                Ok(e) => keys.push(&e.0),
                Err(_) => {},
            }
            q = q + 1;
        }
        assert(key_seq(keys@) =~= keys_of(es));
        sorted_order(h, &keys)
    } else {
        identity_indices(n)
    };
    let ghost ord = entry_order(es, *c, true, *h);
    proof {
        if c.sort_keys {
            lemma_sort_order_len(*h, keys_of(es), es.len());
        }
        assert(ord.take(n as int) =~= ord);
    }
    let mut rows: Vec<Vec<u8>> = Vec::new();
    let mut j: usize = 0;
    while j < n
        invariant
            n <= items@.len(),
            j <= n,
            depth < c.max_depth,
            heap_wf(*h),
            first_pair_error(items@, n as int) is None,
            es == pair_entries(items@, n as int),
            forall|j: int|
                0 <= j < items@.len() ==> (#[trigger] items@[j] matches Ok(e) ==> value_in(*h, e.0)
                    && value_in(*h, e.1)),
            order_matches(order@, ord),
            ord.len() == n,
            forall|q: int| 0 <= q < n ==> 0 <= #[trigger] ord[q] < n,
            row_views(rows@) == rows_of(*h, es, ord.take(j as int), false, *c, depth as int, seen@),
        decreases n - j,
    {
        assert(order@[j as int] as int == ord[j as int]);
        let idx = order[j];
        proof {
            lemma_no_pair_error(items@, n as int, idx as int);
            lemma_rows_step(*h, es, ord, j as int, false, *c, depth as int, seen@);
        }
        match &items[idx] {
            Ok(e) => {
                let row = render_entry_exec(h, &e.0, &e.1, false, c, depth, seen);
                rows.push(row);
            },
            Err(_) => {},
        }
        j = j + 1;
        assert(row_views(rows@) =~= rows_of(*h, es, ord.take(j as int), false, *c, depth as int, seen@));
    }
    layout_rows(&rows, c, len > c.max_entries)
}

/// Render the values read from a userdata's sequence view.
fn items_text_exec(h: &PrettyHeap, items: &Vec<Result<PrettyValue, Vec<u8>>>, c: &PrettyPrintConfig, depth: usize, seen: &Vec<usize>) -> (r: Vec<u8>)
    requires
        heap_wf(*h),
        forall|j: int|
            0 <= j < items@.len() ==> (#[trigger] items@[j] matches Ok(e) ==> value_in(*h, e)),
        depth < c.max_depth,
    ensures
        r@ == items_text(*h, items@, *c, depth as int, seen@),
    decreases c.max_depth - depth, 3int, 0int,
{
    let len = items.len();
    let n = if len <= c.max_entries {
        len
    } else {
        c.max_entries
    };
    let mut j: usize = 0;
    while j < n
        invariant
            n <= len == items@.len(),
            n == (if len <= c.max_entries {
                len
            } else {
                c.max_entries
            }),
            j <= n,
            first_item_error(items@, j as int) is None,
        decreases n - j,
    {
        match &items[j] {
            Err(e) => {
                proof {
                    assert(first_item_error(items@, j + 1) == Some(e@));
                    lemma_item_error_stays(items@, j + 1, n as int);
                }
                return entries_error(e.as_slice());
            },
            Ok(_) => {},
        }
        j = j + 1;
    }
    if n == 0 {
        return empty_text_exec(len > c.max_entries);
    }
    let ghost es = item_entries(items@, n as int);
    let ghost ord = identity_order(n as nat);
    assert(ord.take(n as int) =~= ord);
    let mut rows: Vec<Vec<u8>> = Vec::new();
    let mut j: usize = 0;
    while j < n
        invariant
            n <= items@.len(),
            j <= n,
            depth < c.max_depth,
            heap_wf(*h),
            first_item_error(items@, n as int) is None,
            es == item_entries(items@, n as int),
            ord == identity_order(n as nat),
            forall|j: int|
                0 <= j < items@.len() ==> (#[trigger] items@[j] matches Ok(e) ==> value_in(*h, e)),
            row_views(rows@) == rows_of(*h, es, ord.take(j as int), true, *c, depth as int, seen@),
        decreases n - j,
    {
        proof {
            lemma_no_item_error(items@, n as int, j as int);
            lemma_rows_step(*h, es, ord, j as int, true, *c, depth as int, seen@);
        }
        match &items[j] {
            Ok(v) => {
                let row = render_entry_exec(h, &PrettyValue::Nil, v, true, c, depth, seen);
                rows.push(row);
            },
            Err(_) => {},
        }
        j = j + 1;
        assert(row_views(rows@) =~= rows_of(*h, es, ord.take(j as int), true, *c, depth as int, seen@));
    }
    layout_rows(&rows, c, len > c.max_entries)
}

/// Render `value` as human-readable text: tables recursively, at most
/// `max_depth` levels deep (deeper ones as `{...}`) and `max_entries`
/// entries wide (then `…`), a table met again inside itself as
/// `<cycle>`.
pub fn pretty_print(value: &PrettyValue, config: &PrettyPrintConfig, heap: &PrettyHeap) -> (r: Vec<u8>)
    requires
        heap_wf(*heap),
        value_in(*heap, *value),
    ensures
        r@ == render_value(*heap, *value, *config, 0, Seq::empty()),
{
    let seen: Vec<usize> = Vec::new();
    assert(seen@ =~= Seq::<usize>::empty());
    render_value_exec(heap, value, config, 0, &seen)
}

/// Does `v` refer only to tables and userdata present in `h`?
pub fn value_refs_valid(h: &PrettyHeap, v: &PrettyValue) -> (r: bool)
    ensures
        r == value_in(*h, *v),
{
    match v {
        PrettyValue::Table(i) => *i < h.tables.len(),
        PrettyValue::Userdata(i) => *i < h.userdata.len(),
        _ => true,
    }
}

/// Does every value inside `h`, and `v`, refer only to tables and
/// userdata present in `h`?
pub fn heap_refs_valid(h: &PrettyHeap, v: &PrettyValue) -> (r: bool)
    ensures
        r == (heap_wf(*h) && value_in(*h, *v)),
{
    let nt = h.tables.len();
    let mut i: usize = 0;
    while i < nt
        invariant
            nt == h.tables@.len(),
            i <= nt,
            forall|q: int| 0 <= q < i ==> table_in(*h, #[trigger] h.tables@[q]),
        decreases nt - i,
    {
        let t = &h.tables[i];
        let ne = t.entries.len();
        let mut j: usize = 0;
        while j < ne
            invariant
                ne == t.entries@.len(),
                nt == h.tables@.len(),
                i < nt,
                *t == h.tables@[i as int],
                j <= ne,
                forall|q: int|
                    0 <= q < j ==> value_in(*h, (#[trigger] t.entries@[q]).0) && value_in(
                        *h,
                        t.entries@[q].1,
                    ),
            decreases ne - j,
        {
            if !value_refs_valid(h, &t.entries[j].0) || !value_refs_valid(h, &t.entries[j].1) {
                assert(!table_in(*h, h.tables@[i as int]));
                return false;
            }
            j = j + 1;
        }
        i = i + 1;
    }
    let nu = h.userdata.len();
    let mut i: usize = 0;
    while i < nu
        invariant
            nu == h.userdata@.len(),
            i <= nu,
            forall|q: int| 0 <= q < i ==> shape_in(*h, (#[trigger] h.userdata@[q]).shape),
        decreases nu - i,
    {
        match &h.userdata[i].shape {
            UserdataShape::Pairs(items) => {
                let n = items.len();
                let mut j: usize = 0;
                while j < n
                    invariant
                        n == items@.len(),
                        nu == h.userdata@.len(),
                        i < nu,
                        h.userdata@[i as int].shape == UserdataShape::Pairs(*items),
                        j <= n,
                        forall|q: int|
                            0 <= q < j ==> (#[trigger] items@[q] matches Ok(e) ==> value_in(*h, e.0)
                                && value_in(*h, e.1)),
                    decreases n - j,
                {
                    match &items[j] {
                        Ok(e) => {
                            if !value_refs_valid(h, &e.0) || !value_refs_valid(h, &e.1) {
                                assert(!shape_in(*h, h.userdata@[i as int].shape));
                                return false;
                            }
                        },
                        Err(_) => {},
                    }
                    j = j + 1;
                }
            },
            UserdataShape::Items(items) => {
                let n = items.len();
                let mut j: usize = 0;
                while j < n
                    invariant
                        n == items@.len(),
                        nu == h.userdata@.len(),
                        i < nu,
                        h.userdata@[i as int].shape == UserdataShape::Items(*items),
                        j <= n,
                        forall|q: int|
                            0 <= q < j ==> (#[trigger] items@[q] matches Ok(e) ==> value_in(*h, e)),
                    decreases n - j,
                {
                    match &items[j] {
                        Ok(e) => {
                            if !value_refs_valid(h, e) {
                                assert(!shape_in(*h, h.userdata@[i as int].shape));
                                return false;
                            }
                        },
                        Err(_) => {},
                    }
                    j = j + 1;
                }
            },
            _ => {},
        }
        i = i + 1;
    }
    value_refs_valid(h, v)
}

proof fn lemma_key_less_order(h: PrettyHeap, a: PrettyValue, b: PrettyValue, c: PrettyValue)
    ensures
        !key_less(h, a, a),
        key_less(h, a, b) && key_less(h, b, c) ==> key_less(h, a, c),
{
    if let PrettyValue::Str(x) = a {
        lemma_bytes_less_irreflexive(x@);
    }
    if key_less(h, a, b) && key_less(h, b, c) {
        if key_rank(a) == key_rank(b) && key_rank(b) == key_rank(c) {
            match (a, b, c) {
                (PrettyValue::Str(x), PrettyValue::Str(y), PrettyValue::Str(z)) => {
                    lemma_bytes_less_transitive(x@, y@, z@);
                },
                _ => {},
            }
        }
    }
}

/// The order `o` of the keys is sorted: no key sorts strictly before one
/// that precedes it.
pub open spec fn sorted_by(h: PrettyHeap, keys: Seq<PrettyValue>, o: Seq<int>) -> bool {
    forall|i: int, j: int| 0 <= i < j < o.len() ==> !key_less(h, keys[#[trigger] o[j]], keys[#[trigger] o[i]])
}

/// `o` holds each of `0..n` exactly once.
pub open spec fn is_permutation(o: Seq<int>, n: nat) -> bool {
    &&& o.len() == n
    &&& forall|i: int| 0 <= i < n ==> 0 <= #[trigger] o[i] < n
    &&& forall|i: int, j: int| 0 <= i < j < n ==> #[trigger] o[i] != #[trigger] o[j]
}

proof fn lemma_insert_pos_char(h: PrettyHeap, keys: Seq<PrettyValue>, s: Seq<int>, i: int)
    ensures
        0 <= insert_pos(h, keys, s, i) <= s.len(),
        forall|j: int| 0 <= j < insert_pos(h, keys, s, i) ==> !key_less(h, keys[i], keys[#[trigger] s[j]]),
        insert_pos(h, keys, s, i) < s.len() ==> key_less(h, keys[i], keys[s[insert_pos(h, keys, s, i)]]),
    decreases s.len(),
{
    if s.len() > 0 && !key_less(h, keys[i], keys[s[0]]) {
        lemma_insert_pos_char(h, keys, s.skip(1), i);
        let p = insert_pos(h, keys, s.skip(1), i);
        assert forall|j: int| 0 <= j < insert_pos(h, keys, s, i) implies !key_less(h, keys[i], keys[#[trigger] s[j]]) by {
            if j > 0 {
                assert(s[j] == s.skip(1)[j - 1]);
            }
        }
        if p < s.skip(1).len() {
            assert(s[p + 1] == s.skip(1)[p]);
        }
    }
}

/// Sorting the keys of a table gives each entry once, in sorted order.
pub proof fn law_sort_order_sorted(h: PrettyHeap, keys: Seq<PrettyValue>, n: nat)
    ensures
        is_permutation(sort_order(h, keys, n), n),
        sorted_by(h, keys, sort_order(h, keys, n)),
    decreases n,
{
    if n > 0 {
        law_sort_order_sorted(h, keys, (n - 1) as nat);
        let s = sort_order(h, keys, (n - 1) as nat);
        let e = n - 1;
        lemma_insert_pos_char(h, keys, s, e);
        let p = insert_pos(h, keys, s, e);
        let o = s.insert(p, e);
        assert(o == sort_order(h, keys, n));
        assert forall|i: int| 0 <= i < n implies 0 <= #[trigger] o[i] < n by {
            if i > p {
                assert(o[i] == s[i - 1]);
            } else if i < p {
                assert(o[i] == s[i]);
            }
        }
        assert forall|i: int, j: int| 0 <= i < j < n implies #[trigger] o[i] != #[trigger] o[j] by {
            if i < p && j < p {
                assert(o[i] == s[i] && o[j] == s[j]);
            } else if i < p && j == p {
                assert(o[i] == s[i]);
            } else if i < p && j > p {
                assert(o[i] == s[i] && o[j] == s[j - 1]);
            } else if i == p {
                assert(o[j] == s[j - 1]);
            } else {
                assert(o[i] == s[i - 1] && o[j] == s[j - 1]);
            }
        }
        assert forall|i: int, j: int| 0 <= i < j < n implies !key_less(h, keys[#[trigger] o[j]], keys[#[trigger] o[i]]) by {
            if j < p {
                assert(o[i] == s[i] && o[j] == s[j]);
            } else if j == p {
                assert(o[i] == s[i]);
                lemma_key_less_order(h, keys[e], keys[s[i]], keys[s[i]]);
            } else if i < p {
                assert(o[i] == s[i] && o[j] == s[j - 1]);
            } else if i == p {
                assert(o[j] == s[j - 1]);
                lemma_key_less_order(h, keys[s[j - 1]], keys[e], keys[s[p]]);
                lemma_key_less_order(h, keys[s[p]], keys[e], keys[s[p]]);
                lemma_key_less_order(h, keys[e], keys[s[p]], keys[e]);
            } else {
                assert(o[i] == s[i - 1] && o[j] == s[j - 1]);
            }
        }
    }
}

/// A table or userdata met again while it is being rendered (its address
/// on the path in `seen`) renders as `<cycle>`; a table below the depth
/// cap that is not on the path renders as `{...}`.
pub proof fn law_cycles_and_depth_cap(h: PrettyHeap, v: PrettyValue, c: PrettyPrintConfig, depth: int, seen: Seq<usize>)
    requires
        value_in(h, v),
    ensures
        v matches PrettyValue::Table(i) && seen.contains(h.tables@[i as int].addr) ==> render_value(
            h,
            v,
            c,
            depth,
            seen,
        ) == ascii_bytes("<cycle>"@),
        v matches PrettyValue::Userdata(i) && seen.contains(h.userdata@[i as int].addr)
            ==> render_value(h, v, c, depth, seen) == ascii_bytes("<cycle>"@),
        v matches PrettyValue::Table(i) && !seen.contains(h.tables@[i as int].addr) && depth
            >= c.max_depth ==> render_value(h, v, c, depth, seen) == ascii_bytes("{...}"@),
{
}

proof fn lemma_rows_len(h: PrettyHeap, es: Seq<(PrettyValue, PrettyValue)>, order: Seq<int>, is_array: bool, c: PrettyPrintConfig, depth: int, seen: Seq<usize>)
    requires
        0 <= depth < c.max_depth,
    ensures
        rows_of(h, es, order, is_array, c, depth, seen).len() == order.len(),
    decreases order.len(),
{
    if order.len() > 0 {
        lemma_rows_len(h, es, order.drop_last(), is_array, c, depth, seen);
    }
}

/// A table renders one row per entry, at most `max_entries` of them, and
/// marks the rest as truncated.
pub proof fn law_entries_cap(h: PrettyHeap, es: Seq<(PrettyValue, PrettyValue)>, is_array: bool, c: PrettyPrintConfig, depth: int, seen: Seq<usize>)
    requires
        0 <= depth < c.max_depth,
        es.len() > 0,
    ensures
        ({
            let order = entry_order(es, c, !is_array, h);
            let m = if es.len() <= c.max_entries {
                es.len() as int
            } else {
                c.max_entries as int
            };
            let rows = rows_of(h, es, order.take(m), is_array, c, depth, seen);
            &&& rows.len() == m
            &&& rows.len() <= c.max_entries
            &&& table_text(h, es, is_array, c, depth, seen) == layout(
                rows,
                c,
                es.len() > c.max_entries,
            )
        }),
{
    let order = entry_order(es, c, !is_array, h);
    if c.sort_keys && !is_array {
        lemma_sort_order_len(h, keys_of(es), es.len());
    }
    let m = if es.len() <= c.max_entries {
        es.len() as int
    } else {
        c.max_entries as int
    };
    lemma_rows_len(h, es, order.take(m), is_array, c, depth, seen);
}


/// The entries in the order of their sorted keys.
pub open spec fn sorted_entries(h: PrettyHeap, es: Seq<(PrettyValue, PrettyValue)>) -> Seq<(PrettyValue, PrettyValue)> {
    let o = sort_order(h, keys_of(es), es.len());
    Seq::new(es.len(), |j: int| es[o[j]])
}

/// Any two entries' keys compare one way or the other (so no two keys
/// are equal or alike, as two floats or two booleans are).
pub open spec fn keys_comparable(h: PrettyHeap, es: Seq<(PrettyValue, PrettyValue)>) -> bool {
    forall|i: int, j: int|
        0 <= i < es.len() && 0 <= j < es.len() && i != j ==> key_less(h, #[trigger] es[i].0, #[trigger] es[j].0)
            || key_less(h, es[j].0, es[i].0)
}

/// Strictly increasing by key.
pub open spec fn strictly_by_key(h: PrettyHeap, a: Seq<(PrettyValue, PrettyValue)>) -> bool {
    forall|i: int, j: int| 0 <= i < j < a.len() ==> key_less(h, #[trigger] a[i].0, #[trigger] a[j].0)
}

proof fn lemma_sort_order_covers(h: PrettyHeap, keys: Seq<PrettyValue>, n: nat)
    ensures
        forall|i: int| 0 <= i < n ==> #[trigger] sort_order(h, keys, n).contains(i),
    decreases n,
{
    if n > 0 {
        lemma_sort_order_covers(h, keys, (n - 1) as nat);
        let s = sort_order(h, keys, (n - 1) as nat);
        lemma_insert_pos_char(h, keys, s, n - 1);
        let p = insert_pos(h, keys, s, n - 1);
        let o = s.insert(p, n - 1);
        assert forall|i: int| 0 <= i < n implies #[trigger] o.contains(i) by {
            if i == n - 1 {
                assert(o[p] == i);
            } else {
                assert(s.contains(i));
                let k = choose|k: int| 0 <= k < s.len() && s[k] == i;
                if k < p {
                    assert(o[k] == i);
                } else {
                    assert(o[k + 1] == i);
                }
            }
        }
    }
}

proof fn lemma_sorted_entries(h: PrettyHeap, es: Seq<(PrettyValue, PrettyValue)>)
    requires
        keys_comparable(h, es),
    ensures
        sorted_entries(h, es).len() == es.len(),
        strictly_by_key(h, sorted_entries(h, es)),
        forall|x: (PrettyValue, PrettyValue)| sorted_entries(h, es).contains(x) <==> es.contains(x),
{
    let n = es.len();
    let keys = keys_of(es);
    let o = sort_order(h, keys, n);
    let a = sorted_entries(h, es);
    law_sort_order_sorted(h, keys, n);
    lemma_sort_order_covers(h, keys, n);
    assert forall|i: int, j: int| 0 <= i < j < a.len() implies key_less(h, #[trigger] a[i].0, #[trigger] a[j].0) by {
        assert(o[i] != o[j]);
        assert(a[i] == es[o[i]] && a[j] == es[o[j]]);
        assert(keys[o[i]] == es[o[i]].0 && keys[o[j]] == es[o[j]].0);
        assert(!key_less(h, keys[o[j]], keys[o[i]]));
        assert(key_less(h, es[o[i]].0, es[o[j]].0) || key_less(h, es[o[j]].0, es[o[i]].0));
    }
    assert forall|x: (PrettyValue, PrettyValue)| a.contains(x) <==> es.contains(x) by {
        if a.contains(x) {
            let j = choose|j: int| 0 <= j < a.len() && a[j] == x;
            assert(es[o[j]] == x);
        }
        if es.contains(x) {
            let i = choose|i: int| 0 <= i < es.len() && es[i] == x;
            assert(o.contains(i));
            let j = choose|j: int| 0 <= j < o.len() && o[j] == i;
            assert(a[j] == x);
        }
    }
}

proof fn lemma_strictly_by_key_unique(h: PrettyHeap, a: Seq<(PrettyValue, PrettyValue)>, b: Seq<(PrettyValue, PrettyValue)>)
    requires
        strictly_by_key(h, a),
        strictly_by_key(h, b),
        forall|x: (PrettyValue, PrettyValue)| a.contains(x) <==> b.contains(x),
    ensures
        a == b,
    decreases a.len(),
{
    if a.len() == 0 {
        if b.len() > 0 {
            assert(b.contains(b[0]));
        }
        assert(a =~= b);
    } else if b.len() == 0 {
        assert(a.contains(a[0]));
    } else {
        assert(a.contains(a[0]));
        assert(b.contains(b[0]));
        if a[0] != b[0] {
            let j = choose|j: int| 0 <= j < b.len() && b[j] == a[0];
            let i = choose|i: int| 0 <= i < a.len() && a[i] == b[0];
            assert(key_less(h, b[0].0, b[j].0));
            assert(key_less(h, a[0].0, a[i].0));
            lemma_key_less_order(h, a[0].0, b[0].0, a[0].0);
        }
        let a1 = a.drop_first();
        let b1 = b.drop_first();
        assert forall|x: (PrettyValue, PrettyValue)| a1.contains(x) <==> b1.contains(x) by {
            if a1.contains(x) {
                let k = choose|k: int| 0 <= k < a1.len() && a1[k] == x;
                assert(a[k + 1] == x);
                assert(key_less(h, a[0].0, a[k + 1].0));
                lemma_key_less_order(h, x.0, x.0, x.0);
                assert(a.contains(x));
                let m = choose|m: int| 0 <= m < b.len() && b[m] == x;
                assert(m != 0);
                assert(b1[m - 1] == x);
            }
            if b1.contains(x) {
                let k = choose|k: int| 0 <= k < b1.len() && b1[k] == x;
                assert(b[k + 1] == x);
                assert(key_less(h, b[0].0, b[k + 1].0));
                lemma_key_less_order(h, x.0, x.0, x.0);
                assert(b.contains(x));
                let m = choose|m: int| 0 <= m < a.len() && a[m] == x;
                assert(m != 0);
                assert(a1[m - 1] == x);
            }
        }
        assert forall|i: int, j: int| 0 <= i < j < a1.len() implies key_less(h, #[trigger] a1[i].0, #[trigger] a1[j].0) by {
            assert(a1[i] == a[i + 1] && a1[j] == a[j + 1]);
        }
        assert forall|i: int, j: int| 0 <= i < j < b1.len() implies key_less(h, #[trigger] b1[i].0, #[trigger] b1[j].0) by {
            assert(b1[i] == b[i + 1] && b1[j] == b[j + 1]);
        }
        lemma_strictly_by_key_unique(h, a1, b1);
        assert(a =~= b) by {
            assert forall|i: int| 0 <= i < a.len() implies a[i] == b[i] by {
                if i > 0 {
                    assert(a[i] == a1[i - 1]);
                    assert(b[i] == b1[i - 1]);
                }
            }
        }
    }
}

proof fn lemma_rows_of_alike(
    h: PrettyHeap,
    es1: Seq<(PrettyValue, PrettyValue)>,
    o1: Seq<int>,
    es2: Seq<(PrettyValue, PrettyValue)>,
    o2: Seq<int>,
    is_array: bool,
    c: PrettyPrintConfig,
    depth: int,
    seen: Seq<usize>,
)
    requires
        o1.len() == o2.len(),
        forall|k: int| 0 <= k < o1.len() ==> es1[#[trigger] o1[k]] == es2[o2[k]],
    ensures
        rows_of(h, es1, o1, is_array, c, depth, seen) == rows_of(h, es2, o2, is_array, c, depth, seen),
    decreases o1.len(),
{
    if o1.len() > 0 {
        assert(es1[o1.last()] == es2[o2.last()]);
        lemma_rows_of_alike(h, es1, o1.drop_last(), es2, o2.drop_last(), is_array, c, depth, seen);
    }
}

/// With sorted keys, a table's rendering does not depend on the order in
/// which its entries were inserted: two tables holding the same entries,
/// whose keys all compare one way or the other, render alike.
pub proof fn law_sorted_rendering_ignores_insertion_order(
    h: PrettyHeap,
    es1: Seq<(PrettyValue, PrettyValue)>,
    es2: Seq<(PrettyValue, PrettyValue)>,
    c: PrettyPrintConfig,
    depth: int,
    seen: Seq<usize>,
)
    requires
        c.sort_keys,
        keys_comparable(h, es1),
        keys_comparable(h, es2),
        forall|x: (PrettyValue, PrettyValue)| es1.contains(x) <==> es2.contains(x),
    ensures
        sorted_entries(h, es1) == sorted_entries(h, es2),
        table_text(h, es1, false, c, depth, seen) == table_text(h, es2, false, c, depth, seen),
{
    lemma_sorted_entries(h, es1);
    lemma_sorted_entries(h, es2);
    assert forall|x: (PrettyValue, PrettyValue)| sorted_entries(h, es1).contains(x) <==> sorted_entries(h, es2).contains(x) by {
        assert(sorted_entries(h, es1).contains(x) <==> es1.contains(x));
        assert(sorted_entries(h, es2).contains(x) <==> es2.contains(x));
    }
    lemma_strictly_by_key_unique(h, sorted_entries(h, es1), sorted_entries(h, es2));
    let a = sorted_entries(h, es1);
    assert(es1.len() == es2.len());
    if es1.len() > 0 {
        let o1 = entry_order(es1, c, true, h);
        let o2 = entry_order(es2, c, true, h);
        let m = if es1.len() <= c.max_entries {
            es1.len() as int
        } else {
            c.max_entries as int
        };
        law_sort_order_sorted(h, keys_of(es1), es1.len());
        law_sort_order_sorted(h, keys_of(es2), es2.len());
        assert forall|k: int| 0 <= k < o1.take(m).len() implies es1[#[trigger] o1.take(m)[k]] == es2[o2.take(m)[k]] by {
            assert(a[k] == es1[o1[k]]);
            assert(sorted_entries(h, es2)[k] == es2[o2[k]]);
        }
        lemma_rows_of_alike(h, es1, o1.take(m), es2, o2.take(m), false, c, depth, seen);
    }
}


/// Neither the key nor the value of any entry is a table or userdata.
pub open spec fn entries_scalar(es: Seq<(PrettyValue, PrettyValue)>) -> bool {
    forall|i: int|
        0 <= i < es.len() ==> !(#[trigger] es[i].0 is Table) && !(es[i].0 is Userdata) && !(es[i].1 is Table)
            && !(es[i].1 is Userdata)
}

proof fn lemma_rows_of_scalar_seen(
    h: PrettyHeap,
    es: Seq<(PrettyValue, PrettyValue)>,
    o: Seq<int>,
    is_array: bool,
    c: PrettyPrintConfig,
    depth: int,
    seen1: Seq<usize>,
    seen2: Seq<usize>,
)
    requires
        entries_scalar(es),
        forall|k: int| 0 <= k < o.len() ==> 0 <= #[trigger] o[k] < es.len(),
    ensures
        rows_of(h, es, o, is_array, c, depth, seen1) == rows_of(h, es, o, is_array, c, depth, seen2),
    decreases o.len(),
{
    if o.len() > 0 {
        let e = es[o.last()];
        assert(0 <= o[o.len() - 1] < es.len());
        assert(!(es[o.last()].0 is Table));
        assert(render_value(h, e.1, c, depth + 1, seen1) == render_value(h, e.1, c, depth + 1, seen2));
        assert(render_value(h, e.0, c, depth + 1, seen1) == render_value(h, e.0, c, depth + 1, seen2));
        assert(render_entry(h, e.0, e.1, is_array, c, depth, seen1) == render_entry(h, e.0, e.1, is_array, c, depth, seen2));
        lemma_rows_of_scalar_seen(h, es, o.drop_last(), is_array, c, depth, seen1, seen2);
    }
}

/// With sorted keys, two tables that hold the same entries (flat ones:
/// no key or value is a table or userdata, and any two keys compare one
/// way or the other) print alike, whatever order their entries were
/// inserted in.
pub proof fn law_pretty_print_ignores_insertion_order(h: PrettyHeap, i1: usize, i2: usize, c: PrettyPrintConfig)
    requires
        c.sort_keys,
        i1 < h.tables@.len(),
        i2 < h.tables@.len(),
        !h.tables@[i1 as int].is_array,
        !h.tables@[i2 as int].is_array,
        keys_comparable(h, h.tables@[i1 as int].entries@),
        keys_comparable(h, h.tables@[i2 as int].entries@),
        entries_scalar(h.tables@[i1 as int].entries@),
        entries_scalar(h.tables@[i2 as int].entries@),
        forall|x: (PrettyValue, PrettyValue)| h.tables@[i1 as int].entries@.contains(x) <==> h.tables@[i2 as int].entries@.contains(x),
    ensures
        render_value(h, PrettyValue::Table(i1), c, 0, Seq::empty()) == render_value(
            h,
            PrettyValue::Table(i2),
            c,
            0,
            Seq::empty(),
        ),
{
    let t1 = h.tables@[i1 as int];
    let t2 = h.tables@[i2 as int];
    let es1 = t1.entries@;
    let es2 = t2.entries@;
    let s1 = Seq::<usize>::empty().push(t1.addr);
    let s2 = Seq::<usize>::empty().push(t2.addr);
    assert(!Seq::<usize>::empty().contains(t1.addr));
    assert(!Seq::<usize>::empty().contains(t2.addr));
    if 0 < c.max_depth {
        law_sorted_rendering_ignores_insertion_order(h, es1, es2, c, 0, s1);
        if es2.len() > 0 {
            let o2 = entry_order(es2, c, true, h);
            law_sort_order_sorted(h, keys_of(es2), es2.len());
            let m = if es2.len() <= c.max_entries {
                es2.len() as int
            } else {
                c.max_entries as int
            };
            lemma_rows_of_scalar_seen(h, es2, o2.take(m), false, c, 0, s1, s2);
        }
        assert(table_text(h, es2, false, c, 0, s1) == table_text(h, es2, false, c, 0, s2));
    }
}


proof fn lemma_bytes_less_common_prefix(x: Seq<u8>, y: Seq<u8>, k: int)
    requires
        0 <= k <= x.len(),
        k <= y.len(),
        x.subrange(0, k) == y.subrange(0, k),
    ensures
        bytes_less(x, y) == bytes_less(x.skip(k), y.skip(k)),
    decreases k,
{
    if k == 0 {
        assert(x.skip(0) =~= x && y.skip(0) =~= y);
    } else {
        assert(x.subrange(0, k - 1) =~= x.subrange(0, k).subrange(0, k - 1));
        assert(y.subrange(0, k - 1) =~= y.subrange(0, k).subrange(0, k - 1));
        lemma_bytes_less_common_prefix(x, y, k - 1);
        assert(x[k - 1] == x.subrange(0, k)[k - 1] && y[k - 1] == y.subrange(0, k)[k - 1]);
        crate::byte_str::lemma_bytes_less_step(x, y, k - 1);
    }
}

/// String keys sort byte-wise, whatever their lengths: after the bytes
/// the two keys have in common, the key whose next byte is smaller comes
/// first, and a key that ends there (a proper prefix of the other) comes
/// first; equal keys are not ordered.
pub proof fn law_string_keys_sort_bytewise(h: PrettyHeap, a: PrettyValue, b: PrettyValue, k: int)
    requires
        a is Str,
        b is Str,
        0 <= k <= a->Str_0@.len(),
        k <= b->Str_0@.len(),
        a->Str_0@.subrange(0, k) == b->Str_0@.subrange(0, k),
    ensures
        k < a->Str_0@.len() && k < b->Str_0@.len() && a->Str_0@[k] != b->Str_0@[k] ==> (key_less(h, a, b)
            <==> a->Str_0@[k] < b->Str_0@[k]),
        k == a->Str_0@.len() && k < b->Str_0@.len() ==> key_less(h, a, b) && !key_less(h, b, a),
        k == a->Str_0@.len() && k == b->Str_0@.len() ==> !key_less(h, a, b),
{
    let x = a->Str_0@;
    let y = b->Str_0@;
    lemma_bytes_less_common_prefix(x, y, k);
    lemma_bytes_less_common_prefix(y, x, k);
    if k < x.len() && k < y.len() {
        assert(x.skip(k)[0] == x[k] && y.skip(k)[0] == y[k]);
    }
}


/// Integer keys sort before floats, strings and every other key, and
/// among themselves by value.
pub proof fn law_integer_keys_first(h: PrettyHeap, a: PrettyValue, b: PrettyValue)
    requires
        a is Integer,
    ensures
        b is Integer ==> (key_less(h, a, b) <==> a->Integer_0 < b->Integer_0),
        !(b is Integer) ==> key_less(h, a, b) && !key_less(h, b, a),
{
}

} // verus!
