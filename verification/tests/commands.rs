use simple_redis::cli::base64_opts::{
    formatter_named, validate_formatter, Base64Formatter, Base64Opts, Base64Subcommand,
};
use simple_redis::cli::csv::{validate_file_existed, validate_output_format, OutputFormat};
use simple_redis::cli::genpass::validate_length_more_than_zero;
use simple_redis::cli::text::{
    verify_sign_format, TextKeyGenerateOpts, TextSignFormat, TextSignOpts, TextSubcommand,
    TextVerifyOpts,
};
use simple_redis::process::process_base64::{
    process_base64, process_base64_decode, process_base64_encode, read_all, text_of_decoded,
    Base64Error,
};
use simple_redis::process::process_csv::{name_fields, output_name, process_ckv};
use simple_redis::process::process_http::{index, Fetched};
use simple_redis::process::process_text::{
    process_generate, process_sign, process_text, process_verify, verify_decoded, Blake3,
    Ed25519Signer, Ed25519Verifier, TextError, TextOutcome,
};
use simple_redis::utils::validator::{validate_file, validate_path};

#[test]
fn test_display_for_text_sign_format() {
    assert_eq!("blake3".to_string(), TextSignFormat::Blake3.to_string())
}

#[test]
fn a_scheme_is_named_in_any_case() {
    assert_eq!(verify_sign_format("Blake3"), Ok(TextSignFormat::Blake3));
    assert_eq!(verify_sign_format("ED25519"), Ok(TextSignFormat::Ed25519));
    assert_eq!(verify_sign_format("Rsa"), Err("not support Rsa".to_string()));
    assert_eq!(TextSignFormat::Ed25519.as_str(), "ed25519");
}

#[test]
fn a_formatter_is_named_in_any_case() {
    assert_eq!(validate_formatter("normal"), Ok(Base64Formatter::NORMAL));
    assert_eq!(validate_formatter("UrlSafe"), Ok(Base64Formatter::URLSAFE));
    assert_eq!(validate_formatter("Other"), Err("not support formatter: other".to_string()));
    assert_eq!(formatter_named("NORMAL"), Err("not support formatter: NORMAL".to_string()));
    assert_eq!(Base64Formatter::NORMAL.as_str(), "normal");
    assert_eq!(Base64Formatter::URLSAFE.as_str(), "urlsafe");
}

#[test]
fn an_output_format_is_named_in_any_case() {
    assert_eq!(validate_output_format("JSON"), Ok(OutputFormat::Json));
    assert_eq!(validate_output_format("yaml"), Ok(OutputFormat::Yaml));
    assert_eq!(validate_output_format("Toml"), Err("Not support toml".to_string()));
    assert_eq!(OutputFormat::Json.as_str(), "json");
    assert_eq!(OutputFormat::Yaml.as_str(), "yaml");
}

#[test]
fn a_length_is_a_number_of_one_byte() {
    assert_eq!(validate_length_more_than_zero("8"), Ok(8));
    assert_eq!(validate_length_more_than_zero("+255"), Ok(255));
    assert_eq!(validate_length_more_than_zero("0"), Ok(0));
    for bad in ["", "+", "256", "-1", "1 ", "x"] {
        assert_eq!(validate_length_more_than_zero(bad), Err("invalid length".to_string()));
        assert!(bad.parse::<u8>().is_err());
    }
}

#[test]
fn a_path_is_taken_where_something_is_there() {
    assert_eq!(validate_file("-", false), Ok("-".to_string()));
    assert_eq!(validate_file("a.txt", true), Ok("a.txt".to_string()));
    assert_eq!(validate_file("a.txt", false), Err("not found file: a.txt".to_string()));
    assert_eq!(validate_path("dir", true), Ok("dir".to_string()));
    assert_eq!(validate_path("dir", false), Err("Not found dir: dir".to_string()));
    assert_eq!(validate_file_existed("a.csv", true), Ok("a.csv".to_string()));
    assert_eq!(validate_file_existed("a.csv", false), Err("Not found a.csv".to_string()));
}

#[test]
fn test_base64_normal_encode() {
    assert!(process_base64_encode("hello world~~?", Base64Formatter::NORMAL).is_ok());
    assert_eq!(
        process_base64_encode("hello world~~?", Base64Formatter::NORMAL),
        Ok("aGVsbG8gd29ybGR+fj8=".to_string())
    );
}

#[test]
fn test_base64_urlsafe_encode() {
    assert!(process_base64_encode("hello world~~?", Base64Formatter::URLSAFE).is_ok());
    assert_eq!(
        process_base64_encode("hello world~~?", Base64Formatter::URLSAFE),
        Ok("aGVsbG8gd29ybGR-fj8=".to_string())
    );
}

#[test]
fn test_base64_normal_decode() {
    assert_eq!(
        process_base64_decode("aGVsbG8gd29ybGR+fj8=", Base64Formatter::NORMAL),
        Ok("hello world~~?".to_string())
    );
    assert_eq!(
        process_base64_decode("aGVsbG8gd29ybGR-fj8=", Base64Formatter::NORMAL),
        Err(Base64Error::NotBase64)
    );
    assert_eq!(
        process_base64_decode("/w==", Base64Formatter::NORMAL),
        Err(Base64Error::OutputNotText)
    );
}

#[test]
fn test_base64_urlsafe_decode() {
    assert_eq!(
        process_base64_decode("aGVsbG8gd29ybGR-fj8=", Base64Formatter::URLSAFE),
        Ok("hello world~~?".to_string())
    );
    assert_eq!(
        process_base64_decode("aGVsbG8gd29ybGR+fj8=", Base64Formatter::URLSAFE),
        Err(Base64Error::NotBase64)
    );
}

#[test]
fn the_base64_command_goes_the_way_it_is_told() {
    let encode = Base64Subcommand::Encode(Base64Opts {
        input: "-".to_string(),
        format: Base64Formatter::NORMAL,
    });
    assert_eq!(process_base64(encode, "hi"), Ok("aGk=".to_string()));
    let decode = Base64Subcommand::Decode(Base64Opts {
        input: "-".to_string(),
        format: Base64Formatter::URLSAFE,
    });
    assert_eq!(process_base64(decode, "aGk="), Ok("hi".to_string()));
}

#[test]
fn what_was_read_is_text_without_white_space_round_it() {
    assert_eq!(read_all(b"  aGk=\n".to_vec()), Ok("aGk=".to_string()));
    assert_eq!(read_all(vec![0xff]), Err(Base64Error::InputNotText));
}

fn hex(text: &str) -> Vec<u8> {
    (0..text.len()).step_by(2).map(|i| u8::from_str_radix(&text[i..i + 2], 16).unwrap()).collect()
}

const SECRET: &str = "9d61b19deffd5a60ba844af492ec2cc44449c5697b326919703bac031cae7f60";
const PUBLIC: &str = "d75a980182b10ab7d54bfed3c964073a0ee172f3daa62325af021a68f707511a";
const SIGNATURE: &str = "e5564300c360ac729086e2cc806e828a84877f1eb8e5d974d873e06522490155\
5fb8821590a33bacc61e39701cf9b46bd25bf5f0595bbe24655141438e7a100b";
const SIGNATURE_TEXT: &str =
    "5VZDAMNgrHKQhuLMgG6CioSHfx645dl02HPgZSJJAVVfuIIVkKM7rMYeOXAc-bRr0lv18FlbviRlUUFDjnoQCw";
const HELLO_KEYED: &str = "hello0123456789abcdef0123456789abcdef";

#[test]
fn blake3_signs_the_text_with_the_key_behind_it() {
    let key = b"0123456789abcdef0123456789abcdef".to_vec();
    let expected = blake3::hash(HELLO_KEYED.as_bytes());
    let signer = Blake3::load(key.clone()).unwrap();
    assert_eq!(signer.sign(b"hello".to_vec()), expected.as_bytes().to_vec());
    assert!(signer.verify(b"hello".to_vec(), expected.as_bytes()));
    assert!(!signer.verify(b"hello!".to_vec(), expected.as_bytes()));
    assert!(!signer.verify(b"hello".to_vec(), b"hello"));

    let mut array = [0u8; 32];
    array.copy_from_slice(&key);
    assert_eq!(Blake3::new(array).sign(b"hello".to_vec()), expected.as_bytes().to_vec());
    assert_eq!(Blake3::load(vec![1, 2, 3]).err(), Some(TextError::KeyLength));
}

#[test]
fn ed25519_signs_and_verifies_as_the_standard_says() {
    let signer = Ed25519Signer::load(hex(SECRET)).unwrap();
    assert_eq!(signer.sign(b""), hex(SIGNATURE));
    let verifier = Ed25519Verifier::load(hex(PUBLIC)).unwrap();
    assert_eq!(verifier.verify(b"", &hex(SIGNATURE)), Ok(true));
    assert_eq!(verifier.verify(b"x", &hex(SIGNATURE)), Ok(false));
    assert_eq!(verifier.verify(b"", &[0u8; 63]), Err(TextError::SignatureLength));
    assert_eq!(Ed25519Signer::load(vec![0; 31]).err(), Some(TextError::KeyLength));
    assert_eq!(Ed25519Verifier::load(vec![0; 33]).err(), Some(TextError::KeyLength));
    let mut no_point = vec![0u8; 32];
    no_point[0] = 2;
    assert_eq!(Ed25519Verifier::load(no_point).err(), Some(TextError::PublicKey));
}

#[test]
fn a_signature_travels_as_base64_for_urls_without_padding() {
    assert_eq!(
        process_sign(Vec::new(), hex(SECRET), TextSignFormat::Ed25519),
        Ok(SIGNATURE_TEXT.to_string())
    );
    assert_eq!(
        process_verify(Vec::new(), hex(PUBLIC), SIGNATURE_TEXT.as_bytes(), TextSignFormat::Ed25519),
        Ok(true)
    );
    assert_eq!(
        process_verify(b"x".to_vec(), hex(PUBLIC), SIGNATURE_TEXT.as_bytes(), TextSignFormat::Ed25519),
        Ok(false)
    );
    assert_eq!(
        process_verify(Vec::new(), hex(PUBLIC), b"not base64!", TextSignFormat::Ed25519),
        Err(TextError::NotBase64)
    );
    assert_eq!(
        process_verify(Vec::new(), hex(PUBLIC), b"AAAA", TextSignFormat::Ed25519),
        Err(TextError::SignatureLength)
    );
    assert_eq!(
        process_sign(Vec::new(), vec![1], TextSignFormat::Blake3),
        Err(TextError::KeyLength)
    );
    let key = b"0123456789abcdef0123456789abcdef".to_vec();
    let signed = process_sign(b"hello".to_vec(), key.clone(), TextSignFormat::Blake3).unwrap();
    assert_eq!(signed.len(), 43);
    assert_eq!(
        process_verify(b"hello".to_vec(), key, signed.as_bytes(), TextSignFormat::Blake3),
        Ok(true)
    );
}

#[test]
fn the_text_command_does_what_it_is_told() {
    let sign = TextSubcommand::Sign(TextSignOpts {
        input: "-".to_string(),
        key: "sk".to_string(),
        format: TextSignFormat::Ed25519,
    });
    assert_eq!(
        process_text(sign, Vec::new(), vec![hex(SECRET)]),
        Ok(TextOutcome::Signed(SIGNATURE_TEXT.to_string()))
    );
    let verify = TextSubcommand::Verify(TextVerifyOpts {
        input: "-".to_string(),
        key: "pk".to_string(),
        sig: format!("{}\n  ", SIGNATURE_TEXT),
        format: TextSignFormat::Ed25519,
    });
    assert_eq!(
        process_text(verify, Vec::new(), vec![hex(PUBLIC)]),
        Ok(TextOutcome::Verified(true))
    );
    let no_key = TextSubcommand::Sign(TextSignOpts {
        input: "-".to_string(),
        key: "sk".to_string(),
        format: TextSignFormat::Blake3,
    });
    assert_eq!(process_text(no_key, Vec::new(), vec![]), Err(TextError::MissingKey));
    let generate = TextSubcommand::Generate(TextKeyGenerateOpts {
        output: ".".to_string(),
        format: TextSignFormat::Ed25519,
    });
    assert_eq!(
        process_text(generate, Vec::new(), vec![vec![1], vec![2]]),
        Ok(TextOutcome::KeyFiles(vec![("sk".to_string(), vec![1]), ("pk".to_string(), vec![2])]))
    );
}

#[test]
fn new_keys_go_to_the_files_of_their_scheme() {
    assert_eq!(
        process_generate(TextSignFormat::Blake3, vec![b"secret".to_vec()]),
        Ok(vec![("blake3.txt".to_string(), b"secret".to_vec())])
    );
    assert_eq!(
        process_generate(TextSignFormat::Blake3, vec![vec![0xff]]),
        Err(TextError::KeyNotText)
    );
    assert_eq!(process_generate(TextSignFormat::Blake3, vec![]), Err(TextError::MissingKey));
    assert_eq!(
        process_generate(TextSignFormat::Ed25519, vec![vec![1]]),
        Err(TextError::MissingKey)
    );
}

fn texts(items: &[&str]) -> Vec<String> {
    items.iter().map(|s| s.to_string()).collect()
}

#[test]
fn each_field_goes_under_the_name_at_its_place() {
    let header = texts(&["Name", "Position", "Number"]);
    let record = texts(&["Wojciech", "Goalkeeper", "1"]);
    assert_eq!(
        name_fields(&header, &record),
        vec![
            ("Name".to_string(), "Wojciech".to_string()),
            ("Position".to_string(), "Goalkeeper".to_string()),
            ("Number".to_string(), "1".to_string()),
        ]
    );
    assert_eq!(
        name_fields(&header, &texts(&["Diogo"])),
        vec![("Name".to_string(), "Diogo".to_string())]
    );
    assert_eq!(name_fields(&texts(&["Name"]), &record).len(), 1);
    let rows = process_ckv(&header, &vec![record.clone(), texts(&[]), record]);
    assert_eq!(rows.len(), 3);
    assert_eq!(rows[0], rows[2]);
    assert!(rows[1].is_empty());
    assert_eq!(output_name("output", OutputFormat::Json), "output.json");
    assert_eq!(output_name("out/put", OutputFormat::Yaml), "out/put.yaml");
}

#[test]
fn the_file_server_answers_by_what_it_found() {
    assert_eq!(index("a.txt", Fetched::Missing), (404, "Not found 'a.txt'".to_string()));
    assert_eq!(
        index("a.txt", Fetched::Content("hello".to_string())),
        (200, "hello".to_string())
    );
    assert_eq!(
        index("a.txt", Fetched::Failed("denied".to_string())),
        (500, "Failed to open 'a.txt', err: denied".to_string())
    );
}

#[test]
fn what_was_decoded_is_read_as_text() {
    assert_eq!(text_of_decoded(Some(b"hi".to_vec())), Ok("hi".to_string()));
    assert_eq!(text_of_decoded(Some(vec![0xff])), Err(Base64Error::OutputNotText));
    assert_eq!(text_of_decoded(None), Err(Base64Error::NotBase64));
}

#[test]
fn a_signature_that_did_not_decode_is_none() {
    assert_eq!(
        verify_decoded(Vec::new(), hex(PUBLIC), None, TextSignFormat::Ed25519),
        Err(TextError::NotBase64)
    );
    assert_eq!(
        verify_decoded(Vec::new(), hex(PUBLIC), Some(hex(SIGNATURE)), TextSignFormat::Ed25519),
        Ok(true)
    );
    assert_eq!(
        verify_decoded(Vec::new(), vec![0; 3], Some(hex(SIGNATURE)), TextSignFormat::Blake3),
        Err(TextError::KeyLength)
    );
}

#[test]
fn a_name_in_lower_case_is_taken_as_it_stands() {
    assert_eq!(TextSignFormat::named("BLAKE3", "blake3"), Ok(TextSignFormat::Blake3));
    assert_eq!(TextSignFormat::named("Md5", "md5"), Err("not support Md5".to_string()));
    assert_eq!(TextSignFormat::from_str("Ed25519"), Ok(TextSignFormat::Ed25519));
    assert_eq!(OutputFormat::named("yaml"), Ok(OutputFormat::Yaml));
    assert_eq!(OutputFormat::named("YAML"), Err("Not support YAML".to_string()));
    assert_eq!(OutputFormat::from_str("YAML"), Ok(OutputFormat::Yaml));
}
