use base64::Engine;
use rust_tuyapi::cipher::{maybe_strip_header, TuyaCipher};
use rust_tuyapi::error::ErrorKind;
use rust_tuyapi::mesparse::TuyaVersion;

#[test]
fn maybe_strip_header_with_correct_header() {
    let message = b"3.133ed3d4a21effe90zrA8OK3r3JMiUXpXDWauNppY4Am2c8rZ6sb4Yf15MjM8n5ByDx+QWeCZtcrPqddxLrhm906bSKbQAFtT1uCp+zP5AxlqJf5d0Pp2OxyXyjg=";
    let expected = b"zrA8OK3r3JMiUXpXDWauNppY4Am2c8rZ6sb4Yf15MjM8n5ByDx+QWeCZtcrPqddxLrhm906bSKbQAFtT1uCp+zP5AxlqJf5d0Pp2OxyXyjg=".to_vec();
    assert_eq!(maybe_strip_header(&TuyaVersion::ThreeOne, message), expected)
}

#[test]
fn maybe_strip_header_without_header() {
    let message = b"zrA8OK3r3JMiUXpXDWauNppY4Am2c8rZ6sb4Yf15MjM8n5ByDx+QWeCZtcrPqddxLrhm906bSKbQAFtT1uCp+zP5AxlqJf5d0Pp2OxyXyjg=".to_vec();
    assert_eq!(maybe_strip_header(&TuyaVersion::ThreeOne, &message), message)
}

#[test]
fn encrypt_message() {
    let cipher = TuyaCipher::create(b"bbe88b3f4106d354", TuyaVersion::ThreeOne).unwrap();
    let data =
        r#"{"devId":"002004265ccf7fb1b659","dps":{"1":false,"2":0},"t":1529442366,"s":8}"#
            .as_bytes();
    let result = cipher.encrypt(data).unwrap();

    let expected = b"zrA8OK3r3JMiUXpXDWauNppY4Am2c8rZ6sb4Yf15MjM8n5ByDx+QWeCZtcrPqddxLrhm906bSKbQAFtT1uCp+zP5AxlqJf5d0Pp2OxyXyjg=".to_vec();
    assert_eq!(expected, result);
}

#[test]
fn encrypt_message_without_base64_encoding() {
    let cipher = TuyaCipher::create(b"bbe88b3f4106d354", TuyaVersion::ThreeOne).unwrap();
    let data =
        r#"{"devId":"002004265ccf7fb1b659","dps":{"1":false,"2":0},"t":1529442366,"s":8}"#
            .as_bytes();
    let result = cipher.encrypt(data).unwrap();

    let expected = b"zrA8OK3r3JMiUXpXDWauNppY4Am2c8rZ6sb4Yf15MjM8n5ByDx+QWeCZtcrPqddxLrhm906bSKbQAFtT1uCp+zP5AxlqJf5d0Pp2OxyXyjg=".to_vec();
    assert_eq!(expected, result);
}

#[test]
fn decrypt_message_with_header_and_base_64_encoding() {
    let cipher = TuyaCipher::create(b"bbe88b3f4106d354", TuyaVersion::ThreeOne).unwrap();
    let message = b"3.133ed3d4a21effe90zrA8OK3r3JMiUXpXDWauNppY4Am2c8rZ6sb4Yf15MjM8n5ByDx+QWeCZtcrPqddxLrhm906bSKbQAFtT1uCp+zP5AxlqJf5d0Pp2OxyXyjg=";
    let expected =
        r#"{"devId":"002004265ccf7fb1b659","dps":{"1":false,"2":0},"t":1529442366,"s":8}"#
            .as_bytes()
            .to_owned();

    let decrypted = cipher.decrypt(message).unwrap();
    assert_eq!(&expected, &decrypted);
}

#[test]
fn decrypt_message_with_version_threethree() {
    let cipher = TuyaCipher::create(b"bbe88b3f4106d354", TuyaVersion::ThreeThree).unwrap();
    let message = b"zrA8OK3r3JMiUXpXDWauNppY4Am2c8rZ6sb4Yf15MjM8n5ByDx+QWeCZtcrPqddxLrhm906bSKbQAFtT1uCp+zP5AxlqJf5d0Pp2OxyXyjg=".to_vec();
    let message = base64::engine::general_purpose::STANDARD
        .decode(&message)
        .unwrap();
    let expected =
        r#"{"devId":"002004265ccf7fb1b659","dps":{"1":false,"2":0},"t":1529442366,"s":8}"#
            .as_bytes()
            .to_owned();

    let decrypted = cipher.decrypt(&message).unwrap();
    assert_eq!(&expected, &decrypted);
    // Under 3.3 the ciphertext is never base64, so a second call gives the same.
    let decrypted = cipher.decrypt(&message).unwrap();
    assert_eq!(&expected, &decrypted);
}

#[test]
fn decrypt_message_without_header_and_base64_encoding() {
    let cipher = TuyaCipher::create(b"bbe88b3f4106d354", TuyaVersion::ThreeOne).unwrap();
    let message = b"zrA8OK3r3JMiUXpXDWauNppY4Am2c8rZ6sb4Yf15MjM8n5ByDx+QWeCZtcrPqddxLrhm906bSKbQAFtT1uCp+zP5AxlqJf5d0Pp2OxyXyjg=";
    let expected =
        r#"{"devId":"002004265ccf7fb1b659","dps":{"1":false,"2":0},"t":1529442366,"s":8}"#
            .as_bytes()
            .to_owned();

    let decrypted = cipher.decrypt(message).unwrap();
    assert_eq!(&expected, &decrypted);
}

#[test]
fn decrypt_message_where_payload_is_not_json() {
    let cipher = TuyaCipher::create(b"bbe88b3f4106d354", TuyaVersion::ThreeOne).unwrap();
    let message = b"3.133ed3d4a21effe90rt1hJFzMJPF3x9UhPTCiXw==";
    let expected = "gw id invalid".as_bytes().to_owned();

    let decrypted = cipher.decrypt(message).unwrap();
    assert_eq!(&expected, &decrypted);
}

#[test]
fn cipher_is_made_for_a_key_of_16_bytes_only() {
    assert!(TuyaCipher::create(b"0123456789ABCDEF", TuyaVersion::ThreeThree).is_ok());
    assert!(matches!(
        TuyaCipher::create(b"13579BDF", TuyaVersion::ThreeThree),
        Err(ErrorKind::KeyLength(8))
    ));
    assert!(matches!(
        TuyaCipher::create(b"", TuyaVersion::ThreeOne),
        Err(ErrorKind::KeyLength(0))
    ));
    assert!(matches!(
        TuyaCipher::create(b"0123456789ABCDEF0", TuyaVersion::ThreeOne),
        Err(ErrorKind::KeyLength(17))
    ));
}

#[test]
fn encrypt_under_three_three_gives_the_raw_ciphertext() {
    let cipher = TuyaCipher::create(b"bbe88b3f4106d354", TuyaVersion::ThreeThree).unwrap();
    let data = r#"{"devId":"002004265ccf7fb1b659","dps":{"1":true,"2":0}}"#.as_bytes();
    let expected = hex::decode("ceb03c38adebdc9322517a570d66ae369a58e009b673cad9eac6f861fd793233c8bcbb5882c7117bcc20a9dafec9d14e744b14b7ef575afbcf96760a42e80dc1").unwrap();
    assert_eq!(cipher.encrypt(data).unwrap(), expected);
}

#[test]
fn encrypt_under_three_one_gives_base64_of_the_ciphertext() {
    let cipher = TuyaCipher::create(b"bbe88b3f4106d354", TuyaVersion::ThreeOne).unwrap();
    let data = r#"{"devId":"002004265ccf7fb1b659","dps":{"1":true,"2":0}}"#.as_bytes();
    let expected = b"zrA8OK3r3JMiUXpXDWauNppY4Am2c8rZ6sb4Yf15MjPIvLtYgscRe8wgqdr+ydFOdEsUt+9XWvvPlnYKQugNwQ==".to_vec();
    assert_eq!(cipher.encrypt(data).unwrap(), expected);
}

#[test]
fn decrypt_gives_back_what_encrypt_was_given() {
    let inputs: Vec<Vec<u8>> = vec![
        vec![],
        vec![0],
        b"0123456789abcde".to_vec(),
        b"0123456789abcdef".to_vec(),
        b"0123456789abcdef0".to_vec(),
        (0..=255u8).collect(),
    ];
    for version in [TuyaVersion::ThreeOne, TuyaVersion::ThreeThree] {
        let cipher = TuyaCipher::create(b"bbe88b3f4106d354", version).unwrap();
        for input in &inputs {
            let encrypted = cipher.encrypt(input).unwrap();
            assert!(encrypted.len() > input.len());
            assert_eq!(&cipher.decrypt(&encrypted).unwrap(), input);
        }
    }
}

#[test]
fn decrypt_reports_text_that_is_not_base64() {
    let cipher = TuyaCipher::create(b"bbe88b3f4106d354", TuyaVersion::ThreeOne).unwrap();
    assert!(matches!(
        cipher.decrypt(b"{not base64}"),
        Err(ErrorKind::Base64DecodeError(_))
    ));
}

#[test]
fn decrypt_reports_bytes_that_are_no_ciphertext() {
    let cipher = TuyaCipher::create(b"bbe88b3f4106d354", TuyaVersion::ThreeThree).unwrap();
    assert!(matches!(
        cipher.decrypt(b"seventeen bytes!!"),
        Err(ErrorKind::DecryptionError(_))
    ));
    assert!(matches!(
        cipher.decrypt(b""),
        Err(ErrorKind::DecryptionError(_))
    ));
    let cipher = TuyaCipher::create(b"bbe88b3f4106d354", TuyaVersion::ThreeOne).unwrap();
    assert!(matches!(
        cipher.decrypt(b"YWJj"),
        Err(ErrorKind::DecryptionError(_))
    ));
}

#[test]
fn strip_header_takes_19_bytes_in_three_one_and_15_in_three_three() {
    let data = b"3.3abcdefghijklmnopqrstuvwxyz";
    assert_eq!(
        maybe_strip_header(&TuyaVersion::ThreeThree, data),
        b"mnopqrstuvwxyz".to_vec()
    );
    let data = b"3.1abcdefghijklmnopqrstuvwxyz";
    assert_eq!(
        maybe_strip_header(&TuyaVersion::ThreeOne, data),
        b"qrstuvwxyz".to_vec()
    );
    // the tag of the other version is no header
    assert_eq!(
        maybe_strip_header(&TuyaVersion::ThreeThree, data),
        data.to_vec()
    );
}

#[test]
fn strip_header_on_short_data() {
    // the tag alone is no header
    assert_eq!(
        maybe_strip_header(&TuyaVersion::ThreeOne, b"3.1"),
        b"3.1".to_vec()
    );
    assert_eq!(maybe_strip_header(&TuyaVersion::ThreeOne, b""), Vec::<u8>::new());
    // a header that is cut short takes everything
    assert_eq!(
        maybe_strip_header(&TuyaVersion::ThreeOne, b"3.1abc"),
        Vec::<u8>::new()
    );
    assert_eq!(
        maybe_strip_header(&TuyaVersion::ThreeThree, b"3.3abcdefghijkl"),
        Vec::<u8>::new()
    );
}

#[test]
fn md5_gives_bytes_4_to_15_of_the_digest_of_the_hash_line() {
    let cipher = TuyaCipher::create(b"bbe88b3f4106d354", TuyaVersion::ThreeThree).unwrap();
    let payload = r#"{"devId":"002004265ccf7fb1b659","dps":{"1":true,"2":0}}"#.as_bytes();
    assert_eq!(
        cipher.md5(payload),
        hex::decode("b694f6a8760205f2869eabf6").unwrap()
    );
}
