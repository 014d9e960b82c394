//! A whole dump: choosing the byte range, cutting it into lines, collapsing
//! repeats and rendering what is left.
use vstd::prelude::*;
use vstd::slice::slice_subrange;

use crate::ascii::string_from_chars;
use crate::error::HdError;
use crate::render::{render, render_line, HdOptions, READ_LEN};
use crate::squeeze::{LineAction, SqueezeView, Squeezer};

verus! {

/// The number of bytes a dump covers: `Err(RangeError)` when `offset` lies
/// beyond a file of `file_len` bytes; otherwise `length` bytes, cut short
/// at the end of the file.
pub open spec fn dump_length_spec(file_len: nat, length: nat, offset: nat) -> Result<nat, HdError> {
    if offset > file_len {
        Err(HdError::RangeError)
    } else if length > file_len - offset {
        Ok((file_len - offset) as nat)
    } else {
        Ok(length)
    }
}

/// The number of lines that `len` bytes make: all full but the last.
pub open spec fn n_chunks(len: nat) -> nat {
    ((len + 15) / 16) as nat
}

/// Line `k` of `data`: sixteen bytes, or what is left at the end.
pub open spec fn chunk_of(data: Seq<u8>, k: nat) -> Seq<u8> {
    let start: int = 16 * k as int;
    let end = if start + 16 <= data.len() { start + 16 } else { data.len() as int };
    data.subrange(start as int, end)
}

/// The text that an action on `c` produces.
pub open spec fn action_lines(action: LineAction, c: Seq<u8>, address: nat, options: HdOptions) -> Seq<Seq<char>> {
    match action {
        LineAction::Print => seq![render(c, address, options.spec_mode())],
        LineAction::Marker => seq![seq!['*']],
        LineAction::Suppress => Seq::empty(),
    }
}

/// The text of the first `k` lines of `data` when it starts at `offset`, and
/// the squeeze state after them. Short lines, and every line when squeezing
/// is off, are always rendered and leave the state alone.
pub open spec fn dump_prefix(data: Seq<u8>, offset: nat, options: HdOptions, k: nat) -> (Seq<Seq<char>>, SqueezeView)
    decreases k,
{
    if k == 0 {
        (Seq::empty(), SqueezeView::initial())
    } else {
        let (text, state) = dump_prefix(data, offset, options, (k - 1) as nat);
        let c = chunk_of(data, (k - 1) as nat);
        let address = offset + 16 * (k - 1);
        if options.no_squeezing || c.len() < 16 {
            (text.push(render(c, address as nat, options.spec_mode())), state)
        } else {
            let (next, action) = state.step(c);
            (text + action_lines(action, c, address as nat, options), next)
        }
    }
}

/// The text of a dump of `data`, which starts at `offset` in its file.
pub open spec fn dump_text(data: Seq<u8>, offset: nat, options: HdOptions) -> Seq<Seq<char>> {
    dump_prefix(data, offset, options, n_chunks(data.len())).0
}

/// The views of a sequence of strings.
pub open spec fn string_views(v: Seq<String>) -> Seq<Seq<char>> {
    Seq::new(v.len(), |i: int| v[i]@)
}

/// Checks `offset` against a file of `file_len` bytes and returns how many
/// bytes the dump covers: `length`, cut short at the end of the file.
pub fn dump_length(file_len: usize, length: usize, offset: usize) -> (r: Result<usize, HdError>)
    ensures
        r matches Ok(n) ==> dump_length_spec(file_len as nat, length as nat, offset as nat) == Ok::<nat, HdError>(n as nat),
        r is Err ==> dump_length_spec(file_len as nat, length as nat, offset as nat) == Err::<nat, HdError>(r->Err_0),
{
    if offset > file_len {
        Err(HdError::RangeError)
    } else if length > file_len - offset {
        Ok(file_len - offset)
    } else {
        Ok(length)
    }
}

proof fn lemma_chunk_count(len: nat, k: nat)
    requires
        16 * k < len,
    ensures
        len <= 16 * k + 16 ==> k + 1 == n_chunks(len),
        k < n_chunks(len),
{
    assert(len <= 16 * k + 16 ==> k + 1 == n_chunks(len)) by (nonlinear_arith)
        requires
            16 * k < len,
    ;
    assert(k < n_chunks(len)) by (nonlinear_arith)
        requires
            16 * k < len,
    ;
}

/// Renders `window`, the bytes of a file from `offset` on, line by line:
/// sixteen bytes to a line, the last possibly shorter; unless squeezing is
/// off, a full line equal to the one before is collapsed into one `*`
/// marker per run.
pub fn dump_window(window: &[u8], offset: usize, options: &HdOptions) -> (lines: Vec<String>)
    requires
        offset + window@.len() <= usize::MAX,
    ensures
        string_views(lines@) == dump_text(window@, offset as nat, *options),
{
    let mode = options.mode();
    let mut lines: Vec<String> = Vec::new();
    let mut squeezer = Squeezer::new();
    let len = window.len();
    let mut pos: usize = 0;
    let ghost mut k: nat = 0;
    while pos < len
        invariant
            len == window@.len(),
            offset + len <= usize::MAX,
            mode == options.spec_mode(),
            pos <= len,
            pos < len ==> pos == 16 * k,
            pos == len ==> k == n_chunks(len as nat),
            string_views(lines@) == dump_prefix(window@, offset as nat, *options, k).0,
            squeezer@ == dump_prefix(window@, offset as nat, *options, k).1,
        decreases len - pos,
    {
        proof {
            lemma_chunk_count(len as nat, k);
        }
        let end = if len - pos >= READ_LEN { pos + READ_LEN } else { len };
        let line = slice_subrange(window, pos, end);
        assert(line@ == chunk_of(window@, k));
        let address = offset + pos;
        let ghost before = lines@;
        if options.no_squeezing || line.len() < READ_LEN {
            if let Ok(s) = render_line(line, address, mode) {
                lines.push(s);
            }
            assert(string_views(lines@) =~= string_views(before).push(render(line@, address as nat, mode)));
        } else {
            let action = squeezer.observe(line);
            match action {
                LineAction::Print => {
                    if let Ok(s) = render_line(line, address, mode) {
                        lines.push(s);
                    }
                },
                LineAction::Marker => {
                    let marker = vec!['*'];
                    lines.push(string_from_chars(&marker));
                    assert(marker@ =~= seq!['*']);
                },
                LineAction::Suppress => {},
            }
            assert(string_views(lines@) =~= string_views(before) + action_lines(action, line@, address as nat, *options));
        }
        assert(string_views(lines@) =~= dump_prefix(window@, offset as nat, *options, k + 1).0);
        pos = end;
        proof {
            k = k + 1;
        }
    }
    lines
}

/// The outcome of a dump of a whole file: its text lines and the number of
/// bytes they cover.
pub open spec fn hexdump_spec(file: Seq<u8>, length: nat, offset: nat, options: HdOptions) -> Result<(Seq<Seq<char>>, nat), HdError> {
    match dump_length_spec(file.len(), length, offset) {
        Ok(n) => Ok((dump_text(file.subrange(offset as int, (offset + n) as int), offset, options), n)),
        Err(e) => Err(e),
    }
}

/// A finished dump.
#[derive(Debug)]
pub struct HexDump {
    /// The text lines, without line terminators.
    pub lines: Vec<String>,
    /// The number of bytes that the lines cover.
    pub bytes_dumped: usize,
}

/// Dumps `req_bytes_to_dump` bytes of `file` from `offset` on, cut short at the end of
/// the file; fails with `RangeError` when `offset` lies beyond the end.
pub fn hexdump(file: &[u8], req_bytes_to_dump: usize, offset: usize, options: &HdOptions) -> (r: Result<HexDump, HdError>)
    ensures
        r matches Ok(d) ==> hexdump_spec(file@, req_bytes_to_dump as nat, offset as nat, *options)
            == Ok::<(Seq<Seq<char>>, nat), HdError>((string_views(d.lines@), d.bytes_dumped as nat)),
        r is Err ==> hexdump_spec(file@, req_bytes_to_dump as nat, offset as nat, *options)
            == Err::<(Seq<Seq<char>>, nat), HdError>(r->Err_0),
{
    let n = match dump_length(file.len(), req_bytes_to_dump, offset) {
        Ok(n) => n,
        Err(e) => return Err(e),
    };
    let window = slice_subrange(file, offset, offset + n);
    let lines = dump_window(window, offset, options);
    Ok(HexDump { lines, bytes_dumped: n })
}

/// `n` copies of `line` back to back.
pub open spec fn repeat_line(line: Seq<u8>, n: nat) -> Seq<u8> {
    Seq::new(16 * n, |i: int| line[i % 16])
}

proof fn lemma_repeat_chunks(line: Seq<u8>, n: nat, k: nat)
    requires
        line.len() == 16,
        k < n,
    ensures
        chunk_of(repeat_line(line, n), k) == line,
        n_chunks(repeat_line(line, n).len()) == n,
{
    let data = repeat_line(line, n);
    assert(16 * k + 16 <= 16 * n) by (nonlinear_arith)
        requires
            k < n,
    ;
    assert(((16 * n + 15) / 16) as nat == n) by (nonlinear_arith);
    assert forall|j: int| 0 <= j < 16 implies #[trigger] chunk_of(data, k)[j] == line[j] by {
        assert((16 * k + j) % 16 == j) by (nonlinear_arith)
            requires
                0 <= j < 16,
        ;
    }
    assert(chunk_of(data, k) =~= line);
}

proof fn lemma_repeat_prefix(line: Seq<u8>, n: nat, offset: nat, options: HdOptions, k: nat)
    requires
        line.len() == 16,
        1 <= k <= n,
    ensures
        !options.no_squeezing ==> dump_prefix(repeat_line(line, n), offset, options, k) == (
            if k == 1 {
                seq![render(line, offset, options.spec_mode())]
            } else {
                seq![render(line, offset, options.spec_mode()), seq!['*']]
            },
            SqueezeView { prev: Some(line), squeezing: k >= 2 },
        ),
        options.no_squeezing ==> dump_prefix(repeat_line(line, n), offset, options, k).0
            == Seq::new(k, |i: int| render(line, offset + 16 * i as nat, options.spec_mode())),
    decreases k,
{
    let data = repeat_line(line, n);
    lemma_repeat_chunks(line, n, (k - 1) as nat);
    if k == 1 {
        assert(dump_prefix(data, offset, options, 0) == (Seq::<Seq<char>>::empty(), SqueezeView::initial()));
        assert(dump_prefix(data, offset, options, 1).0 =~= seq![render(line, offset, options.spec_mode())]);
        if options.no_squeezing {
            assert(dump_prefix(data, offset, options, 1).0 =~= Seq::new(
                1,
                |i: int| render(line, offset + 16 * i as nat, options.spec_mode()),
            ));
        }
    } else {
        lemma_repeat_prefix(line, n, offset, options, (k - 1) as nat);
        if options.no_squeezing {
            assert(dump_prefix(data, offset, options, k).0 =~= Seq::new(
                k,
                |i: int| render(line, offset + 16 * i as nat, options.spec_mode()),
            ));
        } else {
            assert(dump_prefix(data, offset, options, k).0 =~= seq![
                render(line, offset, options.spec_mode()),
                seq!['*'],
            ]);
        }
    }
}

/// A dump of `n >= 2` identical full lines shows, when squeezing, the first
/// line and then one `*` marker; with squeezing off it shows every line,
/// each at its own address.
pub proof fn law_repeated_lines(line: Seq<u8>, n: nat, offset: nat, options: HdOptions)
    requires
        line.len() == 16,
        n >= 2,
    ensures
        !options.no_squeezing ==> dump_text(repeat_line(line, n), offset, options)
            == seq![render(line, offset, options.spec_mode()), seq!['*']],
        options.no_squeezing ==> dump_text(repeat_line(line, n), offset, options)
            == Seq::new(n, |i: int| render(line, offset + 16 * i as nat, options.spec_mode())),
{
    lemma_repeat_chunks(line, n, 0);
    lemma_repeat_prefix(line, n, offset, options, n);
}

/// A dump of zero bytes produces no line: it either fails because the
/// offset lies beyond the end of the file, or succeeds with nothing.
pub proof fn law_zero_length(file: Seq<u8>, offset: nat, options: HdOptions)
    ensures
        offset > file.len() ==> hexdump_spec(file, 0, offset, options) == Err::<(Seq<Seq<char>>, nat), HdError>(HdError::RangeError),
        offset <= file.len() ==> hexdump_spec(file, 0, offset, options) == Ok::<(Seq<Seq<char>>, nat), HdError>((Seq::empty(), 0)),
{
    if offset <= file.len() {
        let window = file.subrange(offset as int, offset as int);
        assert(n_chunks(window.len()) == 0);
        assert(dump_text(window, offset, options) == Seq::<Seq<char>>::empty());
    }
}

/// A request that runs past the end of the file covers exactly the bytes
/// from the offset to the end.
pub proof fn law_truncated_at_end(file: Seq<u8>, length: nat, offset: nat, options: HdOptions)
    requires
        offset <= file.len(),
        offset + length > file.len(),
    ensures
        hexdump_spec(file, length, offset, options) == Ok::<(Seq<Seq<char>>, nat), HdError>((
            dump_text(file.subrange(offset as int, file.len() as int), offset, options),
            (file.len() - offset) as nat,
        )),
{
}

/// An empty request at the start of a file succeeds with no line.
pub proof fn law_empty_request_at_start(file: Seq<u8>, options: HdOptions)
    ensures
        hexdump_spec(file, 0, 0, options) == Ok::<(Seq<Seq<char>>, nat), HdError>((Seq::empty(), 0)),
{
    law_zero_length(file, 0, options);
}

} // verus!
