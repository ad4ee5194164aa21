//! The report of a scan as text: numbers in decimal and in hexadecimal, the
//! names of the inode flags, and the lines that describe each event.

use crate::layout::{
    check_magic, magic_matches, NffsDiskArea, PackedNffsDiskBlock, PackedNffsDiskInode,
    INODE_DELETED, INODE_DUMMY, INODE_DUMMYINOBLK, INODE_DUMMYLSTBLK, INODE_DUMMYPARENT,
    INODE_FREE, INODE_INHASH, INODE_INTREE, INODE_OBSOLETE, NFFS_ID_FILE_MIN, NFFS_ID_ROOT_DIR,
};
use crate::registry::str_from_utf8;
use crate::scan::{ScanError, ScanEvent};
use vstd::prelude::*;
use vstd::string::*;
use vstd::utf8::{decode_utf8, valid_utf8};

verus! {

/// The character of one digit, in any base up to sixteen.
pub open spec fn digit_char(digit: int) -> char {
    if digit == 0 {
        '0'
    } else if digit == 1 {
        '1'
    } else if digit == 2 {
        '2'
    } else if digit == 3 {
        '3'
    } else if digit == 4 {
        '4'
    } else if digit == 5 {
        '5'
    } else if digit == 6 {
        '6'
    } else if digit == 7 {
        '7'
    } else if digit == 8 {
        '8'
    } else if digit == 9 {
        '9'
    } else if digit == 10 {
        'a'
    } else if digit == 11 {
        'b'
    } else if digit == 12 {
        'c'
    } else if digit == 13 {
        'd'
    } else if digit == 14 {
        'e'
    } else {
        'f'
    }
}

/// A number in decimal, without leading zeros.
pub open spec fn decimal_text(value: nat) -> Seq<char>
    decreases value,
{
    if value < 10 {
        seq![digit_char(value as int)]
    } else {
        decimal_text(value / 10) + seq![digit_char((value % 10) as int)]
    }
}

/// The lowest `width` digits of a number in hexadecimal, in lower case and
/// with leading zeros.
pub open spec fn hex_text(value: nat, width: nat) -> Seq<char>
    decreases width,
{
    if width == 0 {
        Seq::empty()
    } else {
        hex_text(value / 16, (width - 1) as nat) + seq![digit_char((value % 16) as int)]
    }
}

fn digit_str(digit: u8) -> (text: &'static str)
    requires
        digit < 16,
    ensures
        text@ == seq![digit_char(digit as int)],
{
    proof {
        reveal_strlit("0");
        reveal_strlit("1");
        reveal_strlit("2");
        reveal_strlit("3");
        reveal_strlit("4");
        reveal_strlit("5");
        reveal_strlit("6");
        reveal_strlit("7");
        reveal_strlit("8");
        reveal_strlit("9");
        reveal_strlit("a");
        reveal_strlit("b");
        reveal_strlit("c");
        reveal_strlit("d");
        reveal_strlit("e");
        reveal_strlit("f");
    }
    let text = if digit == 0 {
        "0"
    } else if digit == 1 {
        "1"
    } else if digit == 2 {
        "2"
    } else if digit == 3 {
        "3"
    } else if digit == 4 {
        "4"
    } else if digit == 5 {
        "5"
    } else if digit == 6 {
        "6"
    } else if digit == 7 {
        "7"
    } else if digit == 8 {
        "8"
    } else if digit == 9 {
        "9"
    } else if digit == 10 {
        "a"
    } else if digit == 11 {
        "b"
    } else if digit == 12 {
        "c"
    } else if digit == 13 {
        "d"
    } else if digit == 14 {
        "e"
    } else {
        "f"
    };
    assert(text@ =~= seq![digit_char(digit as int)]);
    text
}

/// Writes a number in decimal.
pub fn decimal(value: u128) -> (text: String)
    ensures
        text@ == decimal_text(value as nat),
    decreases value,
{
    if value < 10 {
        digit_str(value as u8).to_owned()
    } else {
        let mut text = decimal(value / 10);
        text.append(digit_str((value % 10) as u8));
        text
    }
}

/// Writes the lowest `width` hexadecimal digits of a number.
pub fn hex(value: u32, width: u8) -> (text: String)
    ensures
        text@ == hex_text(value as nat, width as nat),
    decreases width,
{
    if width == 0 {
        String::new()
    } else {
        let mut text = hex(value / 16, width - 1);
        text.append(digit_str((value % 16) as u8));
        text
    }
}

/// The inode flags and their names, in the order in which they are listed.
pub open spec fn inode_flag_names() -> Seq<(u8, Seq<char>)> {
    seq![
        (INODE_DUMMY, "DUMMY"@),
        (INODE_DUMMYPARENT, "DUMMYPARENT"@),
        (INODE_DUMMYLSTBLK, "DUMMYLSTBLK"@),
        (INODE_DUMMYINOBLK, "DUMMYLINOBLK"@),
        (INODE_OBSOLETE, "OBSOLETE"@),
        (INODE_INTREE, "INTREE"@),
        (INODE_INHASH, "INHASH"@),
        (INODE_DELETED, "DELETED"@),
    ]
}

/// Whether one of the first `upto` flags of the list is set in `flags`.
pub open spec fn any_flag_below(flags: u8, upto: nat) -> bool
    decreases upto,
{
    upto > 0 && (flags & inode_flag_names()[upto - 1].0 != 0 || any_flag_below(
        flags,
        (upto - 1) as nat,
    ))
}

/// The names of those of the first `upto` flags of the list that are set in
/// `flags`, with `|` between them.
pub open spec fn joined_flags(flags: u8, upto: nat) -> Seq<char>
    decreases upto,
{
    if upto == 0 {
        Seq::empty()
    } else {
        let rest = joined_flags(flags, (upto - 1) as nat);
        let entry = inode_flag_names()[upto - 1];
        if flags & entry.0 == 0 {
            rest
        } else if any_flag_below(flags, (upto - 1) as nat) {
            rest + "|"@ + entry.1
        } else {
            rest + entry.1
        }
    }
}

/// The flags of an inode as text: a space, then in brackets `FREE` where no
/// flag is set, else the names of the flags that are set.
pub open spec fn flags_text(flags: u8) -> Seq<char> {
    " ("@ + (if flags == INODE_FREE {
        "FREE"@
    } else {
        joined_flags(flags, 8)
    }) + ")"@
}

fn inode_flag_name(at: usize) -> (entry: (u8, &'static str))
    requires
        at < 8,
    ensures
        (entry.0, entry.1@) == inode_flag_names()[at as int],
{
    if at == 0 {
        (INODE_DUMMY, "DUMMY")
    } else if at == 1 {
        (INODE_DUMMYPARENT, "DUMMYPARENT")
    } else if at == 2 {
        (INODE_DUMMYLSTBLK, "DUMMYLSTBLK")
    } else if at == 3 {
        (INODE_DUMMYINOBLK, "DUMMYLINOBLK")
    } else if at == 4 {
        (INODE_OBSOLETE, "OBSOLETE")
    } else if at == 5 {
        (INODE_INTREE, "INTREE")
    } else if at == 6 {
        (INODE_INHASH, "INHASH")
    } else {
        (INODE_DELETED, "DELETED")
    }
}

/// Names the flags of an inode.
pub fn inode_flags_str(flags: u8) -> (text: String)
    ensures
        text@ == flags_text(flags),
{
    let mut text = " (".to_owned();
    if flags == INODE_FREE {
        text.append("FREE");
    } else {
        let mut joined = String::new();
        let mut any = false;
        let mut at: usize = 0;
        while at < 8
            invariant
                at <= 8,
                joined@ == joined_flags(flags, at as nat),
                any == any_flag_below(flags, at as nat),
            decreases 8 - at,
        {
            let entry = inode_flag_name(at);
            if flags & entry.0 != 0 {
                if any {
                    joined.append("|");
                }
                joined.append(entry.1);
                any = true;
            }
            at = at + 1;
        }
        text.append(joined.as_str());
    }
    text.append(")");
    text
}

/// The lines that report an area header.
pub open spec fn area_text(area: NffsDiskArea, index: nat) -> Seq<char> {
    "Disk Area "@ + decimal_text(index) + "\n"@ + "\tmagic: "@ + (if magic_matches(area.magic@) {
        "good"@
    } else {
        "bad"@
    }) + "\n"@ + "\tlength: "@ + decimal_text(area.length as nat) + "\n"@ + "\tversion: "@
        + decimal_text(area.version as nat) + "\n"@ + "\tgc_seq: "@ + decimal_text(
        area.gc_seq as nat,
    ) + "\n"@ + "\tid: "@ + decimal_text(area.id as nat) + (if area.scratch() {
        " (scratch)"@
    } else {
        ""@
    }) + "\n"@
}

/// Reports an area header.
pub fn print_area_info(area: &NffsDiskArea, index: usize) -> (text: String)
    ensures
        text@ == area_text(*area, index as nat),
{
    let mut text = "Disk Area ".to_owned();
    text.append(decimal(index as u128).as_str());
    text.append("\n");
    text.append("\tmagic: ");
    text.append(check_magic(area.magic.as_slice()));
    text.append("\n");
    text.append("\tlength: ");
    text.append(decimal(area.length as u128).as_str());
    text.append("\n");
    text.append("\tversion: ");
    text.append(decimal(area.version as u128).as_str());
    text.append("\n");
    text.append("\tgc_seq: ");
    text.append(decimal(area.gc_seq as u128).as_str());
    text.append("\n");
    text.append("\tid: ");
    text.append(decimal(area.id as u128).as_str());
    text.append(
        if area.is_scratch() {
            " (scratch)"
        } else {
            ""
        },
    );
    text.append("\n");
    text
}

/// The label of a computed checksum: whether it is the stored one.
pub open spec fn crc_label(stored: u16, computed: u16) -> Seq<char> {
    if stored == computed {
        " (good)"@
    } else {
        " (bad)"@
    }
}

/// The lines that report a data-block record; `crc` is the checksum
/// computed over the record.
pub open spec fn block_text(obj: PackedNffsDiskBlock, index: nat, crc: u16) -> Seq<char> {
    "\t-> Block "@ + decimal_text(index) + "\n"@ + "\t\tid: 0x"@ + hex_text(obj.id as nat, 8)
        + "\n"@ + "\t\tinode_id: 0x"@ + hex_text(obj.inode_id as nat, 8) + "\n"@
        + "\t\tprev_id: 0x"@ + hex_text(obj.prev_id as nat, 8) + "\n"@ + "\t\tseq: "@
        + decimal_text(obj.seq as nat) + "\n"@ + "\t\tdata_len: "@ + decimal_text(
        obj.data_len as nat,
    ) + "\n"@ + "\t\tcrc: 0x"@ + hex_text(crc as nat, 4) + crc_label(obj.crc16, crc) + "\n"@
}

/// Reports a data-block record; `crc` is the checksum computed over it.
pub fn print_block_info(obj: &PackedNffsDiskBlock, index: usize, crc: u16) -> (text: String)
    ensures
        text@ == block_text(*obj, index as nat, crc),
{
    let mut text = "\t-> Block ".to_owned();
    text.append(decimal(index as u128).as_str());
    text.append("\n");
    text.append("\t\tid: 0x");
    text.append(hex(obj.id, 8).as_str());
    text.append("\n");
    text.append("\t\tinode_id: 0x");
    text.append(hex(obj.inode_id, 8).as_str());
    text.append("\n");
    text.append("\t\tprev_id: 0x");
    text.append(hex(obj.prev_id, 8).as_str());
    text.append("\n");
    text.append("\t\tseq: ");
    text.append(decimal(obj.seq as u128).as_str());
    text.append("\n");
    text.append("\t\tdata_len: ");
    text.append(decimal(obj.data_len as u128).as_str());
    text.append("\n");
    text.append("\t\tcrc: 0x");
    text.append(hex(crc as u32, 4).as_str());
    text.append(
        if obj.crc16 == crc {
            " (good)"
        } else {
            " (bad)"
        },
    );
    text.append("\n");
    text
}

/// The lines of an inode report that come before its name.
pub open spec fn inode_head_text(obj: PackedNffsDiskInode, index: nat) -> Seq<char> {
    "\t-> Inode "@ + decimal_text(index) + "\n"@ + "\t\tid: 0x"@ + hex_text(obj.id as nat, 8)
        + "\n"@ + "\t\tparent_id: 0x"@ + hex_text(obj.parent_id as nat, 8) + "\n"@
        + "\t\tlastblock_id: 0x"@ + hex_text(obj.lastblock_id as nat, 8) + "\n"@ + "\t\tseq: "@
        + decimal_text(obj.seq as nat) + "\n"@ + "\t\tflags: 0x"@ + hex_text(obj.flags as nat, 2)
        + flags_text(obj.flags) + "\n"@
}

/// The line that names an inode: the root directory is shown as `/`,
/// whatever name it has.
pub open spec fn inode_name_text(obj: PackedNffsDiskInode, name: Seq<u8>) -> Seq<char> {
    (if obj.id < NFFS_ID_FILE_MIN {
        "\t\tdirname: \""@
    } else {
        "\t\tfilename: \""@
    }) + (if obj.id == NFFS_ID_ROOT_DIR {
        "/"@
    } else {
        decode_utf8(name)
    }) + "\"\n"@
}

/// Whether the report of an inode record can be written: the name of an
/// inode other than the root is shown once its checksum has verified, and
/// must then be UTF-8.
pub open spec fn inode_printable(obj: PackedNffsDiskInode, name: Seq<u8>, crc: u16) -> bool {
    obj.crc16 == crc && obj.id != NFFS_ID_ROOT_DIR ==> valid_utf8(name)
}

/// The lines that report an inode record; `crc` is the checksum computed
/// over the record.  The name is shown only where the checksum verified.
pub open spec fn inode_text(obj: PackedNffsDiskInode, index: nat, name: Seq<u8>, crc: u16) -> Seq<
    char,
> {
    inode_head_text(obj, index) + (if obj.crc16 == crc {
        inode_name_text(obj, name)
    } else {
        ""@
    }) + "\t\tcrc: 0x"@ + hex_text(crc as nat, 4) + crc_label(obj.crc16, crc) + "\n"@
}

fn inode_head(obj: &PackedNffsDiskInode, index: usize) -> (text: String)
    ensures
        text@ == inode_head_text(*obj, index as nat),
{
    let mut text = "\t-> Inode ".to_owned();
    text.append(decimal(index as u128).as_str());
    text.append("\n");
    text.append("\t\tid: 0x");
    text.append(hex(obj.id, 8).as_str());
    text.append("\n");
    text.append("\t\tparent_id: 0x");
    text.append(hex(obj.parent_id, 8).as_str());
    text.append("\n");
    text.append("\t\tlastblock_id: 0x");
    text.append(hex(obj.lastblock_id, 8).as_str());
    text.append("\n");
    text.append("\t\tseq: ");
    text.append(decimal(obj.seq as u128).as_str());
    text.append("\n");
    text.append("\t\tflags: 0x");
    text.append(hex(obj.flags as u32, 2).as_str());
    text.append(inode_flags_str(obj.flags).as_str());
    text.append("\n");
    text
}

/// Reports an inode record, whose name is `name`; `crc` is the checksum
/// computed over it.  There is no report where the name would be shown and
/// is not UTF-8.
pub fn print_inode_info(obj: &PackedNffsDiskInode, index: usize, name: &[u8], crc: u16) -> (text:
    Option<String>)
    ensures
        text is Some <==> inode_printable(*obj, name@, crc),
        text matches Some(report) ==> report@ == inode_text(*obj, index as nat, name@, crc),
{
    let mut text = inode_head(obj, index);
    if obj.crc16 == crc {
        let mut line = (if obj.id < NFFS_ID_FILE_MIN {
            "\t\tdirname: \""
        } else {
            "\t\tfilename: \""
        }).to_owned();
        if obj.id == NFFS_ID_ROOT_DIR {
            line.append("/");
        } else {
            match str_from_utf8(name) {
                Some(shown) => {
                    line.append(shown);
                },
                None => {
                    return None;
                },
            }
        }
        line.append("\"\n");
        text.append(line.as_str());
    } else {
        text.append("");
    }
    text.append("\t\tcrc: 0x");
    text.append(hex(crc as u32, 4).as_str());
    text.append(
        if obj.crc16 == crc {
            " (good)"
        } else {
            " (bad)"
        },
    );
    text.append("\n");
    Some(text)
}

/// The line that tells why a scan went no further.
pub open spec fn error_text(error: ScanError) -> Seq<char> {
    match error {
        ScanError::TruncatedAreaHeader { offset } => "Area header cut short at offset "@
            + decimal_text(offset as nat) + "\n"@,
        ScanError::BadAreaLength { offset, length } => "Area at offset "@ + decimal_text(
            offset as nat,
        ) + " has the invalid length "@ + decimal_text(length as nat) + "\n"@,
        ScanError::InvalidName { id } => "Inode 0x"@ + hex_text(id as nat, 8)
            + " has a name that is not UTF-8\n"@,
    }
}

/// Tells why a scan went no further.
pub fn scan_error_str(error: &ScanError) -> (text: String)
    ensures
        text@ == error_text(*error),
{
    match *error {
        ScanError::TruncatedAreaHeader { offset } => {
            let mut text = "Area header cut short at offset ".to_owned();
            text.append(decimal(offset as u128).as_str());
            text.append("\n");
            text
        },
        ScanError::BadAreaLength { offset, length } => {
            let mut text = "Area at offset ".to_owned();
            text.append(decimal(offset as u128).as_str());
            text.append(" has the invalid length ");
            text.append(decimal(length as u128).as_str());
            text.append("\n");
            text
        },
        ScanError::InvalidName { id } => {
            let mut text = "Inode 0x".to_owned();
            text.append(hex(id, 8).as_str());
            text.append(" has a name that is not UTF-8\n");
            text
        },
    }
}

/// Whether the report of an event can be written from the image `img`: the
/// name of an inode record has to lie in the image and to be printable.
pub open spec fn event_printable(img: Seq<u8>, event: ScanEvent) -> bool {
    match event {
        ScanEvent::Inode { header, crc, name_at, .. } => name_at + header.filename_len
            <= img.len() && inode_printable(
            header,
            img.subrange(name_at as int, name_at + header.filename_len),
            crc,
        ),
        _ => true,
    }
}

/// The lines that report an event of the scan of the image `img`.
pub open spec fn event_text(img: Seq<u8>, event: ScanEvent) -> Seq<char> {
    match event {
        ScanEvent::Area { index, header } => area_text(header, index as nat),
        ScanEvent::Inode { index, header, crc, name_at } => inode_text(
            header,
            index as nat,
            img.subrange(name_at as int, name_at + header.filename_len),
            crc,
        ),
        ScanEvent::Block { index, header, crc } => block_text(header, index as nat, crc),
        ScanEvent::FreeSpace { bytes } => "\tFree space: "@ + decimal_text(bytes as nat) + "\n"@,
        ScanEvent::AbortArea => "\tObject with invalid size, aborting area inspection\n"@,
        ScanEvent::Stopped { error } => error_text(error),
    }
}

/// Reports one event of the scan of the image `data`.
pub fn format_event(event: &ScanEvent, data: &[u8]) -> (text: Option<String>)
    ensures
        text is Some <==> event_printable(data@, *event),
        text matches Some(report) ==> report@ == event_text(data@, *event),
{
    match *event {
        ScanEvent::Area { index, header } => Some(print_area_info(&header, index)),
        ScanEvent::Inode { index, header, crc, name_at } => {
            let len: usize = header.filename_len as usize;
            if name_at > data.len() || data.len() - name_at < len {
                return None;
            }
            print_inode_info(&header, index, &data[name_at..name_at + len], crc)
        },
        ScanEvent::Block { index, header, crc } => Some(print_block_info(&header, index, crc)),
        ScanEvent::FreeSpace { bytes } => {
            let mut text = "\tFree space: ".to_owned();
            text.append(decimal(bytes as u128).as_str());
            text.append("\n");
            Some(text)
        },
        ScanEvent::AbortArea => Some(
            "\tObject with invalid size, aborting area inspection\n".to_owned(),
        ),
        ScanEvent::Stopped { error } => Some(scan_error_str(&error)),
    }
}

/// Whether the report of each of the events can be written from the image
/// `img`.
pub open spec fn log_printable(img: Seq<u8>, events: Seq<ScanEvent>) -> bool {
    forall|k: int| 0 <= k < events.len() ==> event_printable(img, #[trigger] events[k])
}

/// The reports of the events, one after the other.
pub open spec fn log_text(img: Seq<u8>, events: Seq<ScanEvent>) -> Seq<char>
    decreases events.len(),
{
    if events.len() == 0 {
        Seq::empty()
    } else {
        log_text(img, events.drop_last()) + event_text(img, events.last())
    }
}

/// Reports the events of the scan of the image `data`, in order.  There is
/// no report where that of one of the events cannot be written.
pub fn format_log(log: &Vec<ScanEvent>, data: &[u8]) -> (text: Option<String>)
    ensures
        text is Some <==> log_printable(data@, log@),
        text matches Some(report) ==> report@ == log_text(data@, log@),
{
    let mut text = String::new();
    let mut at: usize = 0;
    while at < log.len()
        invariant
            at <= log@.len(),
            log_printable(data@, log@.take(at as int)),
            text@ == log_text(data@, log@.take(at as int)),
        decreases log@.len() - at,
    {
        let ghost seen = log@.take(at as int);
        let ghost grown = log@.take(at + 1);
        proof {
            assert(grown.drop_last() =~= seen);
            assert(grown.last() == log@[at as int]);
        }
        match format_event(&log[at], data) {
            Some(report) => {
                text.append(report.as_str());
            },
            None => {
                assert(!event_printable(data@, log@[at as int]));
                return None;
            },
        }
        proof {
            assert forall|k: int| 0 <= k < grown.len() implies event_printable(
                data@,
                #[trigger] grown[k],
            ) by {
                if k < at {
                    assert(grown[k] == seen[k]);
                }
            }
        }
        at = at + 1;
    }
    proof {
        assert(log@.take(at as int) =~= log@);
    }
    Some(text)
}

} // verus!
