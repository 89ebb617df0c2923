use rust_tuyapi::error::{ErrorKind, ParseErrorKind};
use rust_tuyapi::mesparse::{verify_key, CommandType, Message, MessageParser, TuyaVersion};
use rust_tuyapi::payload::{Payload, PayloadStruct};
use std::collections::HashMap;

/// Reads a structured payload from JSON, as a host program does before it
/// hands the result to the library.
fn structured(bytes: &[u8]) -> Option<PayloadStruct> {
    let value: serde_json::Value = serde_json::from_slice(bytes).ok()?;
    let object = value.as_object()?;
    let text = |name: &str| object.get(name).and_then(|v| v.as_str()).map(String::from);
    Some(PayloadStruct {
        dev_id: text("devId")?,
        gw_id: text("gwId"),
        uid: text("uid"),
        t: object.get("t").and_then(|v| v.as_u64()).map(|t| t as u32),
        dps: object
            .get("dps")?
            .as_object()?
            .iter()
            .map(|(k, v)| (k.clone(), v.clone()))
            .collect(),
    })
}

#[test]
fn test_key_length_is_16() {
    let key = Some("0123456789ABCDEF");
    assert!(verify_key(key).is_ok());
}

#[test]
fn test_key_lenght_not_16_gives_error() {
    let bad_key = Some("13579BDF");
    assert!(verify_key(bad_key).is_err());
}

#[test]
fn test_parse_mqttversion() {
    let version = TuyaVersion::from_str("3.1").unwrap();
    assert_eq!(version, TuyaVersion::ThreeOne);

    let version2 = TuyaVersion::from_str("ver3.3").unwrap();
    assert_eq!(version2, TuyaVersion::ThreeThree);

    assert!(TuyaVersion::from_str("3.4").is_err());
}

#[test]
fn test_parse_messages() {
    let packet =
        hex::decode("000055aa00000000000000090000000c00000000b051ab030000aa55").unwrap();
    let expected = Message {
        command: Some(CommandType::HeartBeat),
        payload: "".as_bytes().to_vec(),
        seq_nr: Some(0),
        ret_code: Some(0),
    };
    let mp = MessageParser::create("3.1", None).unwrap();
    let (buf, messages) = mp.parse_messages(&packet).unwrap();
    assert_eq!(messages[0], expected);
    assert_eq!(buf, &[] as &[u8]);
    assert_eq!(
        Payload::from_decoded(&messages[0].payload, structured(&messages[0].payload)),
        Payload::String("".to_string())
    );
}

#[test]
fn test_parse_messages_with_payload() {
    let packet = hex::decode("000055aa00000000000000070000005b00000000332e33d8bab8946c604148a45c15326ed3b99d683695a73c624e75a5aaa31f4061f5b99033e6d01f0b0abf9dbc76b2a54eb4bf60976b1dc496169db9e5a3fd627f2c3d9c4744585e471b6a2fc479ca01f7e18e0000aa55").unwrap();
    let mut dps = HashMap::new();
    dps.insert("1".to_string(), serde_json::Value::Bool(true));
    let expected_payload = Payload::Struct(PayloadStruct {
        dev_id: "46052834d8f15b92e53b".to_string(),
        gw_id: None,
        uid: None,
        t: None,
        dps,
    });
    let expected = Message {
        command: Some(CommandType::Control),
        payload: r#"{"devId":"46052834d8f15b92e53b","dps":{"1":true}}"#
            .as_bytes()
            .to_vec(),
        seq_nr: Some(0),
        ret_code: Some(0),
    };
    let mp = MessageParser::create("3.3", None).unwrap();
    let (buf, messages) = mp.parse_messages(&packet).unwrap();
    assert_eq!(messages[0], expected);
    assert_eq!(buf, &[] as &[u8]);
    assert_eq!(
        Payload::from_decoded(&messages[0].payload, structured(&messages[0].payload)),
        expected_payload
    );
}

#[test]
fn test_parse_data_format_error() {
    let packet =
        hex::decode("000055aa00000000000000070000003b00000001332e33d504910232d355a59ed1f6ed1f4a816a1e8e30ed09987c020ae45d72c70592bb233c79c43a5b9ae49b6ead38725deb520000aa55").unwrap();
    let expected = Message {
        command: Some(CommandType::Control),
        payload: "data format error".as_bytes().to_vec(),
        seq_nr: Some(0),
        ret_code: Some(1),
    };
    let mp = MessageParser::create("3.3", None).unwrap();
    let (buf, messages) = mp.parse_messages(&packet).unwrap();
    assert_eq!(messages[0], expected);
    assert_eq!(buf, &[] as &[u8]);
    assert_eq!(
        Payload::from_decoded(&messages[0].payload, structured(&messages[0].payload)),
        Payload::String("data format error".to_string())
    );
}

#[test]
fn test_parse_double_messages() {
    let packet =
        hex::decode("000055aa00000000000000090000000c00000000b051ab030000aa55000055aa000000000000000a0000000c0000000089dc97c60000aa55").unwrap();
    let expected = vec![
        Message {
            command: Some(CommandType::HeartBeat),
            payload: "".as_bytes().to_vec(),
            seq_nr: Some(0),
            ret_code: Some(0),
        },
        Message {
            command: Some(CommandType::DpQuery),
            payload: "".as_bytes().to_vec(),
            seq_nr: Some(0),
            ret_code: Some(0),
        },
    ];
    let mp = MessageParser::create("3.1", None).unwrap();
    let (buf, messages) = mp.parse_messages(&packet).unwrap();
    assert_eq!(messages[0], expected[0]);
    assert_eq!(messages[1], expected[1]);
    assert_eq!(buf, &[] as &[u8]);
}

#[test]
fn test_encode_with_and_without_encryption_and_version_three_one() {
    let payload = r#"{"devId":"002004265ccf7fb1b659","dps":{"1":true,"2":0}}"#
        .as_bytes()
        .to_vec();
    let mes = Message {
        command: Some(CommandType::DpQuery),
        payload,
        seq_nr: Some(0),
        ret_code: Some(0),
    };
    let parser = MessageParser::create("3.1", None).unwrap();
    let encrypted = parser.encode(&mes, true).unwrap();
    let unencrypted = parser.encode(&mes, false).unwrap();
    // Only encrypt 3.1 if the flag is set
    assert_ne!(encrypted, unencrypted);
}

#[test]
fn test_encode_with_and_without_encryption_and_version_three_three() {
    let payload = r#"{"devId":"002004265ccf7fb1b659","dps":{"1":true}}"#
        .as_bytes()
        .to_vec();
    let mes = Message {
        command: Some(CommandType::DpQuery),
        payload,
        seq_nr: Some(0),
        ret_code: Some(0),
    };
    let parser = MessageParser::create("3.3", None).unwrap();

    let encrypted = parser.encode(&mes, true).unwrap();
    let unencrypted = parser.encode(&mes, false).unwrap();
    // Always encrypt 3.3, no matter what the flag is
    assert_eq!(encrypted, unencrypted);
}

#[test]
fn version_is_read_from_the_parts_around_the_first_dot() {
    assert_eq!(
        TuyaVersion::from_str("3.1.5").unwrap(),
        TuyaVersion::ThreeOne
    );
    assert_eq!(
        TuyaVersion::from_str("version 33.3").unwrap(),
        TuyaVersion::ThreeThree
    );
    assert!(matches!(
        TuyaVersion::from_str("3.4"),
        Err(ErrorKind::VersionError(major, minor)) if major == "3" && minor == "4"
    ));
    assert!(matches!(
        TuyaVersion::from_str("ver3.11.2"),
        Err(ErrorKind::VersionError(major, minor)) if major == "ver3" && minor == "11"
    ));
    assert!(matches!(
        TuyaVersion::from_str("3."),
        Err(ErrorKind::VersionError(major, minor)) if major == "3" && minor == ""
    ));
}

#[test]
fn version_without_a_three_before_a_dot_is_unknown() {
    for text in ["", "3", "31", "4.1", ".1", "3ver.1", "é.3"] {
        assert!(matches!(
            TuyaVersion::from_str(text),
            Err(ErrorKind::VersionError(major, minor)) if major == "Unknown" && minor == "Unknown"
        ));
    }
}

#[test]
fn version_is_parsed_from_a_string() {
    assert_eq!("3.1".parse::<TuyaVersion>().unwrap(), TuyaVersion::ThreeOne);
    assert_eq!("ver3.3".parse::<TuyaVersion>().unwrap(), TuyaVersion::ThreeThree);
    assert!("3.4".parse::<TuyaVersion>().is_err());
}

#[test]
fn version_is_written_as_three_ascii_bytes() {
    assert_eq!(TuyaVersion::ThreeOne.as_bytes(), b"3.1");
    assert_eq!(TuyaVersion::ThreeThree.as_bytes(), b"3.3");
}

#[test]
fn key_is_the_bytes_of_the_string_or_the_digest_of_the_udp_key() {
    assert_eq!(
        verify_key(Some("0123456789ABCDEF")).unwrap(),
        b"0123456789ABCDEF".to_vec()
    );
    assert_eq!(
        verify_key(None).unwrap(),
        hex::decode("6c1ec8e2bb9bb59ab50b0daf649b410a").unwrap()
    );
    assert!(matches!(
        verify_key(Some("13579BDF")),
        Err(ErrorKind::KeyLength(8))
    ));
    // sixteen characters, but more bytes
    assert!(matches!(
        verify_key(Some("0123456789ABCDEé")),
        Err(ErrorKind::KeyLength(17))
    ));
}

#[test]
fn parser_is_made_for_a_version_and_a_key_of_16_bytes() {
    assert!(MessageParser::create("3.3", Some("bbe88b3f4106d354")).is_ok());
    assert!(matches!(
        MessageParser::create("3.3", Some("bbe88b3f4106d35")),
        Err(ErrorKind::KeyLength(15))
    ));
    assert!(matches!(
        MessageParser::create("3.2", Some("bbe88b3f4106d354")),
        Err(ErrorKind::VersionError(_, _))
    ));
    // the version is looked at first
    assert!(matches!(
        MessageParser::create("3.2", Some("short")),
        Err(ErrorKind::VersionError(_, _))
    ));
}

#[test]
fn command_has_its_number_and_a_number_its_command() {
    let table = [
        (CommandType::Udp, 0u8),
        (CommandType::ApConfig, 1),
        (CommandType::Active, 2),
        (CommandType::Bind, 3),
        (CommandType::RenameGw, 4),
        (CommandType::RenameDevice, 5),
        (CommandType::Unbind, 6),
        (CommandType::Control, 7),
        (CommandType::Status, 8),
        (CommandType::HeartBeat, 9),
        (CommandType::DpQuery, 10),
        (CommandType::QueryWifi, 11),
        (CommandType::TokenBind, 12),
        (CommandType::ControlNew, 13),
        (CommandType::EnableWifi, 14),
        (CommandType::DpQueryNew, 16),
        (CommandType::SceneExecute, 17),
        (CommandType::DpRefresh, 18),
        (CommandType::UdpNew, 19),
        (CommandType::ApConfigNew, 20),
        (CommandType::LanGwActive, 240),
        (CommandType::LanSubDevRequest, 241),
        (CommandType::LanDeleteSubDev, 242),
        (CommandType::LanReportSubDev, 243),
        (CommandType::LanScene, 244),
        (CommandType::LanPublishCloudConfig, 245),
        (CommandType::LanPublishAppConfig, 246),
        (CommandType::LanExportAppConfig, 247),
        (CommandType::LanPublishScenePanel, 248),
        (CommandType::LanRemoveGw, 249),
        (CommandType::LanCheckGwUpdate, 250),
        (CommandType::LanGwUpdate, 251),
        (CommandType::LanSetGwChannel, 252),
        (CommandType::Error, 255),
    ];
    for (command, code) in table {
        assert_eq!(command.to_u8(), code);
        assert_eq!(CommandType::from_u32(code as u32), Some(command));
    }
    for code in [15u32, 21, 100, 239, 253, 254, 256, 0x0100_0007, u32::MAX] {
        assert_eq!(CommandType::from_u32(code), None);
    }
}

#[test]
fn unknown_command_is_parsed_as_no_command() {
    let head = hex::decode("000055aa0000000100000063 0000000c00000000".replace(' ', "")).unwrap();
    let mut packet = head.clone();
    packet.extend(crc32fast::hash(&head).to_be_bytes());
    packet.extend(hex::decode("0000aa55").unwrap());
    let mp = MessageParser::create("3.3", None).unwrap();
    let messages = mp.parse(&packet).unwrap();
    assert_eq!(
        messages,
        vec![Message {
            command: None,
            payload: vec![],
            seq_nr: Some(1),
            ret_code: Some(0),
        }]
    );
}

#[test]
fn message_without_command_is_not_encoded() {
    let parser = MessageParser::create("3.3", Some("bbe88b3f4106d354")).unwrap();
    let mes = Message {
        command: None,
        payload: b"{}".to_vec(),
        seq_nr: Some(1),
        ret_code: None,
    };
    assert!(matches!(
        parser.encode(&mes, true),
        Err(ErrorKind::CommandTypeMissing)
    ));
    assert!(matches!(
        mes.frame(b"{}"),
        Err(ErrorKind::CommandTypeMissing)
    ));
}

#[test]
fn frame_is_laid_out_field_by_field() {
    let mes = Message {
        command: Some(CommandType::Status),
        payload: vec![],
        seq_nr: Some(0x01020304),
        ret_code: Some(0x7f),
    };
    let mut expected = hex::decode("000055aa01020304000000080000000f0000007f414243").unwrap();
    expected.extend(crc32fast::hash(&expected).to_be_bytes());
    expected.extend(hex::decode("0000aa55").unwrap());
    assert_eq!(mes.frame(b"ABC").unwrap(), expected);

    let mes = Message::new(b"", CommandType::Error, None);
    let mut expected = hex::decode("000055aa00000000000000ff0000000b414243").unwrap();
    expected.extend(crc32fast::hash(&expected).to_be_bytes());
    expected.extend(hex::decode("0000aa55").unwrap());
    assert_eq!(mes.frame(b"ABC").unwrap(), expected);
}

#[test]
fn new_message_has_no_return_code() {
    assert_eq!(
        Message::new(b"abc", CommandType::Control, Some(7)),
        Message {
            payload: b"abc".to_vec(),
            command: Some(CommandType::Control),
            seq_nr: Some(7),
            ret_code: None,
        }
    );
}

#[test]
fn parse_reports_what_is_wrong_with_the_buffer() {
    let mp = MessageParser::create("3.1", None).unwrap();
    let frame =
        hex::decode("000055aa00000000000000090000000c00000000b051ab030000aa55").unwrap();
    assert!(matches!(
        mp.parse(b""),
        Err(ErrorKind::ParseError(ParseErrorKind::Tag))
    ));
    assert!(matches!(
        mp.parse(&frame[1..]),
        Err(ErrorKind::ParseError(ParseErrorKind::Tag))
    ));
    assert!(matches!(
        mp.parse(&frame[..10]),
        Err(ErrorKind::ParseError(ParseErrorKind::Eof))
    ));
    assert!(matches!(
        mp.parse(&frame[..20]),
        Err(ErrorKind::ParsingIncomplete)
    ));
    assert!(matches!(
        mp.parse(&frame[..26]),
        Err(ErrorKind::ParseError(ParseErrorKind::Tag))
    ));
    // a length that does not cover itself
    let short = hex::decode("000055aa0000000000000009000000030000aa55").unwrap();
    assert!(matches!(
        mp.parse(&short),
        Err(ErrorKind::ParseError(ParseErrorKind::LengthValue))
    ));
    // a return code with no room for the checksum behind it
    let cramped = hex::decode("000055aa000000000000000900000008000000000000aa55").unwrap();
    assert!(matches!(
        mp.parse(&cramped),
        Err(ErrorKind::ParseError(ParseErrorKind::Eof))
    ));
    let mut trailing = frame.clone();
    trailing.push(0);
    assert!(matches!(
        mp.parse(&trailing),
        Err(ErrorKind::BufferNotCompletelyParsedError)
    ));
    let mut incomplete = frame.clone();
    incomplete.extend(&frame[..20]);
    assert!(matches!(
        mp.parse(&incomplete),
        Err(ErrorKind::ParsingIncomplete)
    ));
    let mut bad_sum = frame.clone();
    bad_sum[23] ^= 1;
    assert!(matches!(mp.parse(&bad_sum), Err(ErrorKind::CRCError)));
}

#[test]
fn parse_messages_hands_back_what_follows_the_frames() {
    let mp = MessageParser::create("3.1", None).unwrap();
    let mut packet =
        hex::decode("000055aa00000000000000090000000c00000000b051ab030000aa55").unwrap();
    packet.extend(b"rest");
    let (buf, messages) = mp.parse_messages(&packet).unwrap();
    assert_eq!(buf, b"rest");
    assert_eq!(messages.len(), 1);
}

#[test]
fn try_decrypt_hands_on_what_does_not_decrypt() {
    let mp = MessageParser::create("3.3", Some("bbe88b3f4106d354")).unwrap();
    assert_eq!(mp.try_decrypt(b"gw id invalid"), b"gw id invalid".to_vec());
    let ciphertext = hex::decode("ceb03c38adebdc9322517a570d66ae369a58e009b673cad9eac6f861fd793233c8bcbb5882c7117bcc20a9dafec9d14e744b14b7ef575afbcf96760a42e80dc1").unwrap();
    assert_eq!(
        mp.try_decrypt(&ciphertext),
        r#"{"devId":"002004265ccf7fb1b659","dps":{"1":true,"2":0}}"#
            .as_bytes()
            .to_vec()
    );
}
