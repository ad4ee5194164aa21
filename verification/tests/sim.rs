use nffs_info::areas::{AreaError, CNffsAreaDesc, NffsAreaDesc, Sector};
use nffs_info::harness::{
    add_areas, area_table, engine_log_level, first_restore, geometry, make_device, make_sectors,
    restore_result, second_restore, DeviceScale, EngineLogLevel, RestoreError, RestoreResult,
    RunStatus, RESTORE_INTERRUPTED,
};
use nffs_info::script::{
    all_devices, file_open_command, parse_length, path_rename_command, valid_alignment,
    write_to_file_command, DeviceName, ScriptCommand, ScriptError, ScriptRunner,
};

fn groups(parts: &[Option<&str>]) -> Vec<Option<String>> {
    parts.iter().map(|part| part.map(|text| text.to_string())).collect()
}

#[test]
fn device_names() {
    assert_eq!(DeviceName::Linear4k.to_string(), "linear-4k");
    assert_eq!(all_devices(), vec![DeviceName::Linear4k]);
}

#[test]
fn alignments() {
    for align in 0..=255u8 {
        assert_eq!(valid_alignment(align), matches!(align, 1 | 2 | 4 | 8));
    }
}

#[test]
fn runner_reads_plain_commands() {
    let runner = ScriptRunner::new();
    assert_eq!(runner.process("format"), Ok(ScriptCommand::Format));
    assert_eq!(runner.process("  format \t"), Ok(ScriptCommand::Format));
    assert_eq!(runner.process("restore"), Ok(ScriptCommand::Restore));
    assert_eq!(runner.process("\trestore  "), Ok(ScriptCommand::Restore));
    assert_eq!(runner.process(""), Ok(ScriptCommand::Invalid));
    assert_eq!(runner.process("formats"), Ok(ScriptCommand::Invalid));
    assert_eq!(runner.process("format restore"), Ok(ScriptCommand::Invalid));
    assert_eq!(runner.process("# format"), Ok(ScriptCommand::Invalid));
}

#[test]
fn runner_reads_file_open() {
    let runner = ScriptRunner::new();
    assert_eq!(
        runner.process("file_open log append"),
        Ok(ScriptCommand::FileOpen { name: "log".to_string(), flags: b'a' })
    );
    assert_eq!(
        runner.process("  file_open   data_1   truncate  "),
        Ok(ScriptCommand::FileOpen { name: "data_1".to_string(), flags: b't' })
    );
    assert_eq!(runner.process("file_open log "), Err(ScriptError::MissingGroup));
    assert_eq!(runner.process("file_open log"), Ok(ScriptCommand::Invalid));
    assert_eq!(runner.process("file_open log create"), Ok(ScriptCommand::Invalid));
}

#[test]
fn runner_reads_write_to_file() {
    let runner = ScriptRunner::new();
    assert_eq!(
        runner.process("write_to_file log x 1024"),
        Ok(ScriptCommand::WriteToFile { name: "log".to_string(), fill: b'x', len: 1024 })
    );
    assert_eq!(
        runner.process(" write_to_file  f  7  0 "),
        Ok(ScriptCommand::WriteToFile { name: "f".to_string(), fill: b'7', len: 0 })
    );
    assert_eq!(runner.process("write_to_file log é 3"), Err(ScriptError::InvalidFill));
    assert_eq!(
        runner.process("write_to_file log x 99999999999999999999999999"),
        Err(ScriptError::InvalidLength)
    );
    assert_eq!(runner.process("write_to_file log x ٣"), Err(ScriptError::InvalidLength));
    assert_eq!(runner.process("write_to_file log xy 3"), Ok(ScriptCommand::Invalid));
    assert_eq!(runner.process("write_to_file log x"), Ok(ScriptCommand::Invalid));
}

#[test]
fn runner_reads_path_rename() {
    let runner = ScriptRunner::new();
    assert_eq!(
        runner.process("path_rename old new"),
        Ok(ScriptCommand::PathRename { oldname: "old".to_string(), newname: "new".to_string() })
    );
    assert_eq!(runner.process("path_rename old"), Ok(ScriptCommand::Invalid));
}

#[test]
fn lengths_in_decimal() {
    assert_eq!(parse_length("0"), Some(0));
    assert_eq!(parse_length("007"), Some(7));
    assert_eq!(parse_length("+15"), Some(15));
    assert_eq!(parse_length("4096"), Some(4096));
    assert_eq!(parse_length(&usize::MAX.to_string()), Some(usize::MAX));
    assert_eq!(parse_length(&format!("{}0", usize::MAX)), None);
    assert_eq!(parse_length("18446744073709551616"), "18446744073709551616".parse().ok());
    assert_eq!(parse_length(""), None);
    assert_eq!(parse_length("+"), None);
    assert_eq!(parse_length("-1"), None);
    assert_eq!(parse_length("++1"), None);
    assert_eq!(parse_length("12a"), None);
    assert_eq!(parse_length(" 12"), None);
    assert_eq!(parse_length("١٢"), None);
    for text in ["0", "+0", "31", "+", "", "1_000", "0x10", "99999999999999999999"] {
        assert_eq!(parse_length(text), text.parse::<usize>().ok());
    }
}

#[test]
fn commands_from_groups() {
    assert_eq!(
        file_open_command(&groups(&[Some("file_open a append"), Some("a"), Some("append")])),
        Ok(ScriptCommand::FileOpen { name: "a".to_string(), flags: b'a' })
    );
    assert_eq!(
        file_open_command(&groups(&[Some("x"), Some("a"), None])),
        Err(ScriptError::MissingGroup)
    );
    assert_eq!(
        file_open_command(&groups(&[Some("x"), Some("a"), Some("")])),
        Err(ScriptError::MissingGroup)
    );
    assert_eq!(file_open_command(&groups(&[Some("x")])), Err(ScriptError::MissingGroup));
    assert_eq!(
        write_to_file_command(&groups(&[Some("x"), Some("f"), Some("c"), Some("12")])),
        Ok(ScriptCommand::WriteToFile { name: "f".to_string(), fill: b'c', len: 12 })
    );
    assert_eq!(
        write_to_file_command(&groups(&[Some("x"), Some("f"), Some("cc"), Some("12")])),
        Err(ScriptError::InvalidFill)
    );
    assert_eq!(
        write_to_file_command(&groups(&[Some("x"), Some("f"), Some("cc"), None])),
        Err(ScriptError::InvalidFill)
    );
    assert_eq!(
        write_to_file_command(&groups(&[Some("x"), Some("f"), Some("c"), None])),
        Err(ScriptError::MissingGroup)
    );
    assert_eq!(
        write_to_file_command(&groups(&[Some("x"), Some("f"), Some("c"), Some("1x")])),
        Err(ScriptError::InvalidLength)
    );
    assert_eq!(
        write_to_file_command(&groups(&[Some("x"), None, Some("c"), Some("1")])),
        Err(ScriptError::MissingGroup)
    );
    assert_eq!(
        path_rename_command(&groups(&[Some("x"), Some("a"), Some("b")])),
        Ok(ScriptCommand::PathRename { oldname: "a".to_string(), newname: "b".to_string() })
    );
    assert_eq!(
        path_rename_command(&groups(&[Some("x"), Some("a")])),
        Err(ScriptError::MissingGroup)
    );
}

#[test]
fn sectors_laid_out_from_zero() {
    let sectors = make_sectors(3, 4096).unwrap();
    assert_eq!(
        sectors,
        vec![
            Sector { num: 0, base: 0, size: 4096 },
            Sector { num: 1, base: 4096, size: 4096 },
            Sector { num: 2, base: 8192, size: 4096 },
        ]
    );
    assert_eq!(make_sectors(0, 7), Some(vec![]));
    assert_eq!(make_sectors(usize::MAX, 2), None);
    assert!(NffsAreaDesc::new(vec![Sector { num: 0, base: usize::MAX, size: 1 }]).is_none());
    assert!(NffsAreaDesc::new(vec![Sector { num: 0, base: usize::MAX, size: 0 }]).is_some());
}

#[test]
fn areas_are_made_of_whole_sectors() {
    let mut desc = NffsAreaDesc::new(make_sectors(8, 256).unwrap()).unwrap();
    assert_eq!(desc.add_area_desc(0, 512), Ok(()));
    assert_eq!(desc.add_area_desc(512, 256), Ok(()));
    assert_eq!(desc.add_area_desc(1024, 0), Ok(()));
    assert_eq!(desc.add_area_desc(100, 256), Err(AreaError::NotOnSectorBoundary));
    assert_eq!(desc.add_area_desc(768, 300), Err(AreaError::EndsInsideSector));
    assert_eq!(desc.add_area_desc(768, 100), Err(AreaError::EndsInsideSector));
    assert_eq!(desc.add_area_desc(1792, 512), Err(AreaError::PastEndOfDevice));
    assert_eq!(desc.add_area_desc(4096, 256), Err(AreaError::PastEndOfDevice));
    assert_eq!(desc.add_area_desc(1792, 256), Ok(()));
    assert_eq!(desc.len(), 4);
    let list = desc.get_c().unwrap();
    assert_eq!(list[0], CNffsAreaDesc { offset: 0, length: 512, flash_id: 0 });
    assert_eq!(list[1], CNffsAreaDesc { offset: 512, length: 256, flash_id: 0 });
    assert_eq!(list[2], CNffsAreaDesc { offset: 1024, length: 0, flash_id: 0 });
    assert_eq!(list[3], CNffsAreaDesc { offset: 1792, length: 256, flash_id: 0 });
    for entry in &list[4..] {
        assert_eq!(*entry, CNffsAreaDesc { offset: 0, length: 0, flash_id: 0 });
    }
}

#[test]
fn list_of_areas_has_to_end() {
    let mut desc = NffsAreaDesc::new(make_sectors(16, 16).unwrap()).unwrap();
    for i in 0..14 {
        assert_eq!(desc.add_area_desc(i * 16, 16), Ok(()));
        assert!(desc.get_c().is_some());
    }
    assert_eq!(desc.add_area_desc(14 * 16, 16), Ok(()));
    assert_eq!(desc.len(), 15);
    assert!(desc.get_c().is_none());
}

#[test]
fn the_device_is_set_up() {
    assert_eq!(geometry(DeviceName::Linear4k, DeviceScale::Small), (32, 256));
    let table = area_table(DeviceName::Linear4k, DeviceScale::Small);
    assert_eq!(table.len(), 9);
    assert_eq!(table[4], (0x400, 1024));
    let desc = make_device(DeviceName::Linear4k, DeviceScale::Small);
    assert_eq!(desc.len(), 9);
    let list = desc.get_c().unwrap();
    assert_eq!(list[8], CNffsAreaDesc { offset: 0x1800, length: 2048, flash_id: 0 });
    assert_eq!(list[9], CNffsAreaDesc { offset: 0, length: 0, flash_id: 0 });
}

#[test]
fn the_large_device_is_set_up() {
    assert_eq!(geometry(DeviceName::Linear4k, DeviceScale::Large), (256, 4096));
    let table = area_table(DeviceName::Linear4k, DeviceScale::Large);
    assert_eq!(table.len(), 12);
    assert_eq!(table[0], (0, 16 * 1024));
    assert_eq!(table[4], (0x10000, 64 * 1024));
    assert_eq!(table[11], (0xe0000, 128 * 1024));
    let desc = make_device(DeviceName::Linear4k, DeviceScale::Large);
    assert_eq!(desc.len(), 12);
    let list = desc.get_c().unwrap();
    assert_eq!(list[11], CNffsAreaDesc { offset: 0xe0000, length: 0x20000, flash_id: 0 });
    assert_eq!(list[12], CNffsAreaDesc { offset: 0, length: 0, flash_id: 0 });
}

#[test]
fn areas_are_added_up_to_the_first_misfit() {
    let mut desc = NffsAreaDesc::new(make_sectors(4, 100).unwrap()).unwrap();
    let table = vec![(0, 100), (100, 200), (300, 50), (300, 100)];
    assert_eq!(add_areas(&mut desc, &table), Err(AreaError::EndsInsideSector));
    assert_eq!(desc.len(), 2);
}

#[test]
fn restore_codes() {
    assert_eq!(RESTORE_INTERRUPTED, -0x13579);
    assert_eq!(restore_result(0), RestoreResult::Done);
    assert_eq!(restore_result(-0x13579), RestoreResult::Interrupted);
    assert_eq!(restore_result(5), RestoreResult::Unknown { code: 5 });
    assert_eq!(first_restore(0, None, -42), Ok((false, 42)));
    assert_eq!(first_restore(0, Some(3), 0), Ok((false, 0)));
    assert_eq!(first_restore(0, None, i32::MIN), Err(RestoreError::CountOutOfRange));
    assert_eq!(first_restore(-0x13579, Some(7), 0), Ok((true, 7)));
    assert_eq!(first_restore(-0x13579, None, 0), Err(RestoreError::UnexpectedStop));
    assert_eq!(first_restore(9, Some(7), 0), Err(RestoreError::UnknownReturn { code: 9 }));
    assert_eq!(second_restore(0, 7, -5), Ok(12));
    assert_eq!(second_restore(0, i32::MAX, -1), Err(RestoreError::CountOutOfRange));
    assert_eq!(second_restore(-0x13579, 7, 0), Err(RestoreError::StoppedAgain));
    assert_eq!(second_restore(3, 7, 0), Err(RestoreError::UnknownReturn { code: 3 }));
}

#[test]
fn engine_log_levels() {
    assert_eq!(engine_log_level(1), Some(EngineLogLevel::Error));
    assert_eq!(engine_log_level(2), Some(EngineLogLevel::Warn));
    assert_eq!(engine_log_level(3), Some(EngineLogLevel::Info));
    assert_eq!(engine_log_level(4), Some(EngineLogLevel::Trace));
    assert_eq!(engine_log_level(0), None);
    assert_eq!(engine_log_level(5), None);
    assert_eq!(engine_log_level(-1), None);
}

#[test]
fn tally_of_scripts() {
    let mut status = RunStatus::new();
    assert_eq!((status.failures(), status.passes(), status.exit_code()), (0, 0, 0));
    status.record(false);
    status.record(false);
    assert_eq!((status.failures(), status.passes(), status.exit_code()), (0, 2, 0));
    status.record(true);
    assert_eq!((status.failures(), status.passes(), status.exit_code()), (1, 2, 1));
}
