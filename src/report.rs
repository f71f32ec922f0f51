use vstd::prelude::*;
use vstd::utf8::encode_utf8;

use crate::engine::{FileHashTable, GroupView};
use crate::entry::{EntryView, FileEntry};
use crate::keys::{decimal, decimal_bytes};

verus! {

/// The lowercase ASCII hexadecimal digit for `d < 16`.
pub open spec fn hex_digit(d: nat) -> u8 {
    if d < 10 {
        (48 + d) as u8
    } else {
        (87 + d) as u8
    }
}

/// The last `n` hexadecimal digits of `k`, zero-padded, most significant first.
pub open spec fn hex_digits(k: nat, n: nat) -> Seq<u8>
    decreases n,
{
    if n == 0 {
        seq![]
    } else {
        hex_digits(k / 16, (n - 1) as nat).push(hex_digit(k % 16))
    }
}

/// `k` as 16 lowercase hexadecimal digits.
pub open spec fn hex16(k: u64) -> Seq<u8> {
    hex_digits(k as nat, 16)
}

/// `---.---.---.---.`, written in place of the key after a group's first line.
pub open spec fn placeholder() -> Seq<u8> {
    seq![45u8, 45, 45, 46, 45, 45, 45, 46, 45, 45, 45, 46, 45, 45, 45, 46]
}

/// One line of the report: `lead;"<path>";<size>` and a newline.
pub open spec fn entry_line(lead: Seq<u8>, e: EntryView) -> Seq<u8> {
    lead + seq![59u8, 34u8] + encode_utf8(e.path) + seq![34u8, 59u8] + decimal(e.size as nat) + seq![
        10u8,
    ]
}

/// The lines of a group's entries: the first one led by the key, the others
/// by the placeholder.
pub open spec fn group_lines(key: u64, files: Seq<EntryView>) -> Seq<u8>
    decreases files.len(),
{
    if files.len() == 0 {
        seq![]
    } else {
        let lead = if files.len() == 1 {
            hex16(key)
        } else {
            placeholder()
        };
        group_lines(key, files.drop_last()) + entry_line(lead, files.last())
    }
}

/// What the report holds for one group: nothing unless it has two members.
pub open spec fn group_text(g: GroupView) -> Seq<u8> {
    if g.files.len() < 2 {
        seq![]
    } else {
        group_lines(g.key, g.files)
    }
}

/// The whole report for the groups `gs`, in their order.
pub open spec fn report(gs: Seq<GroupView>) -> Seq<u8>
    decreases gs.len(),
{
    if gs.len() == 0 {
        seq![]
    } else {
        report(gs.drop_last()) + group_text(gs.last())
    }
}

fn append(out: &mut Vec<u8>, bytes: &[u8])
    ensures
        final(out)@ == old(out)@ + bytes@,
{
    let ghost start = out@;
    for i in 0..bytes.len()
        invariant
            out@ == start + bytes@.take(i as int),
    {
        out.push(bytes[i]);
        assert(bytes@.take(i + 1) =~= bytes@.take(i as int).push(bytes@[i as int]));
    }
    assert(bytes@.take(bytes@.len() as int) =~= bytes@);
}

fn push_hex(out: &mut Vec<u8>, k: u64, n: usize)
    ensures
        final(out)@ == old(out)@ + hex_digits(k as nat, n as nat),
    decreases n,
{
    if n > 0 {
        push_hex(out, k / 16, n - 1);
        let d = k % 16;
        let digit: u8 = if d < 10 {
            48u8 + d as u8
        } else {
            87u8 + d as u8
        };
        out.push(digit);
        assert(hex_digits(k as nat, n as nat) == hex_digits(k as nat / 16, (n - 1) as nat).push(
            hex_digit(k as nat % 16),
        ));
    }
}

fn push_placeholder(out: &mut Vec<u8>)
    ensures
        final(out)@ == old(out)@ + placeholder(),
{
    let ghost start = out@;
    for i in 0..4usize
        invariant
            out@ == start + placeholder().take(4 * i),
    {
        out.push(45u8);
        out.push(45u8);
        out.push(45u8);
        out.push(46u8);
        assert(out@ =~= start + placeholder().take(4 * (i + 1)));
    }
    assert(placeholder().take(16) =~= placeholder());
}

fn write_line(out: &mut Vec<u8>, first: bool, key: u64, e: &FileEntry)
    ensures
        final(out)@ == old(out)@ + entry_line(
            if first {
                hex16(key)
            } else {
                placeholder()
            },
            e@,
        ),
{
    let ghost start = out@;
    if first {
        push_hex(out, key, 16);
    } else {
        push_placeholder(out);
    }
    out.push(59u8);
    out.push(34u8);
    append(out, e.fullpath.as_str().as_bytes());
    out.push(34u8);
    out.push(59u8);
    let digits = decimal_bytes(e.filesize);
    append(out, digits.as_slice());
    out.push(10u8);
    assert(out@ =~= start + entry_line(
        if first {
            hex16(key)
        } else {
            placeholder()
        },
        e@,
    ));
}

/// Appends the report of `table` to `out`: one line per entry of each group
/// with two or more members, groups in table order and entries in input order.
pub fn write_filetable(table: &FileHashTable, out: &mut Vec<u8>)
    ensures
        final(out)@ == old(out)@ + report(table@),
{
    let ghost start = out@;
    let ghost gs = table@;
    for j in 0..table.groups.len()
        invariant
            gs == table@,
            out@ == start + report(gs.take(j as int)),
    {
        let group = &table.groups[j];
        let ghost before = out@;
        if group.files.len() >= 2 {
            for i in 0..group.files.len()
                invariant
                    group == &table.groups@[j as int],
                    out@ == before + group_lines(group.key, group@.files.take(i as int)),
            {
                write_line(out, i == 0, group.key, &group.files[i]);
                let ghost fs = group@.files.take(i + 1);
                assert(fs.drop_last() =~= group@.files.take(i as int));
                assert(group_lines(group.key, fs) == group_lines(group.key, fs.drop_last())
                    + entry_line(
                    if fs.len() == 1 {
                        hex16(group.key)
                    } else {
                        placeholder()
                    },
                    fs.last(),
                ));
                assert(out@ =~= before + group_lines(group.key, fs));
            }
            assert(group@.files.take(group@.files.len() as int) =~= group@.files);
        }
        assert(gs.take(j + 1).drop_last() =~= gs.take(j as int));
        assert(gs[j as int] == group@);
        assert(out@ =~= start + report(gs.take(j + 1)));
    }
    assert(gs.take(gs.len() as int) =~= gs);
}

} // verus!
