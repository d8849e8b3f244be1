use vmess_quan::{
    convert_cfg_str, convert_vmess_uri, decode_vmess_uri, index, ConvertConfig, ConvertError, VmessConfig,
};

const FIRST_IN: &str = "vmess://ew0KICAidiI6ICIyIiwNCiAgInBzIjogIklQT25seVYyTiIsDQogICJhZGQiOiAiMTIzLjIzLjMuMTIiLA0KICAicG9ydCI6ICIxOTE5IiwNCiAgImlkIjogIjM0N2U2MTY3LTY4YmYtNDBlMi1hNGZmLTA4MmY5N2VmNjIzMSIsDQogICJhaWQiOiAiMjMzIiwNCiAgIm5ldCI6ICJ0Y3AiLA0KICAidHlwZSI6ICJub25lIiwNCiAgImhvc3QiOiAiIiwNCiAgInBhdGgiOiAiIiwNCiAgInRscyI6ICIiDQp9";
const FIRST_OUT: &str = "vmess://SVBPbmx5VjJOID0gdm1lc3MsIDEyMy4yMy4zLjEyLCAxOTE5LCBjaGFjaGEyMC1pZXRmLXBvbHkxMzA1LCAiMzQ3ZTYxNjctNjhiZi00MGUyLWE0ZmYtMDgyZjk3ZWY2MjMxIiwgZ3JvdXA9VjJOdG9RdWFuLCBvdmVyLXRscz1mYWxzZSwgY2VydGlmaWNhdGU9MQ==";
const SECOND_IN: &str = "vmess://ew0KICAidiI6ICIyIiwNCiAgInBzIjogIlNPTUVWNiIsDQogICJhZGQiOiAiaXB2Ni5zZy53aG8ubW9lIiwNCiAgInBvcnQiOiAiNDA0IiwNCiAgImlkIjogIjY4YmI2MGUyLTJhMDQtNDk2Yy1iYjM4LWE0NDkyMDZhNGJkZSIsDQogICJhaWQiOiAiNjQiLA0KICAibmV0IjogIndzIiwNCiAgInR5cGUiOiAibm9uZSIsDQogICJob3N0IjogImlwdjYuc2cud2hvLm1vZSIsDQogICJwYXRoIjogIi93aGVyZS8iLA0KICAidGxzIjogInRscyINCn0=";
const SECOND_OUT: &str = "vmess://U09NRVY2ID0gdm1lc3MsIGlwdjYuc2cud2hvLm1vZSwgNDA0LCBjaGFjaGEyMC1pZXRmLXBvbHkxMzA1LCAiNjhiYjYwZTItMmEwNC00OTZjLWJiMzgtYTQ0OTIwNmE0YmRlIiwgZ3JvdXA9VjJOdG9RdWFuLCBvdmVyLXRscz10cnVlLCBjZXJ0aWZpY2F0ZT0xLCBvYmZzPXdzLCBvYmZzLXBhdGg9Ii93aGVyZS8iLCBvYmZzLWhlYWRlcj0iSG9zdDogaXB2Ni5zZy53aG8ubW9lW1JyXVtObl1Vc2VyLUFnZW50OiBNb3ppbGxhLzUuMCAoaVBob25lOyBDUFUgaVBob25lIE9TIDExXzJfNiBsaWtlIE1hYyBPUyBYKSBBcHBsZVdlYktpdC82MDQuNS42IChLSFRNTCwgbGlrZSBHZWNrbykgTW9iaWxlLzE1RDEwMCI=";
const UA: &str = "Mozilla/5.0 (iPhone; CPU iPhone OS 11_2_6 like Mac OS X) AppleWebKit/604.5.6 (KHTML, like Gecko) Mobile/15D100";

fn check_convert(ins: &str, ous: &str) {
    assert_eq!(convert_vmess_uri(ins, &ConvertConfig::default()), Ok(ous.to_string()));
}

fn clause_of(uri: &str) -> String {
    assert!(uri.starts_with("vmess://"));
    String::from_utf8(base64::decode_config(&uri[8..], base64::URL_SAFE).unwrap()).unwrap()
}

fn descriptor(net: &str, obfs_type: &str, host: &str, path: &str, tls: &str) -> VmessConfig {
    VmessConfig {
        v: "2".to_string(),
        ps: "name".to_string(),
        add: "example.org".to_string(),
        port: "443".to_string(),
        id: "abc".to_string(),
        aid: "0".to_string(),
        net: net.to_string(),
        obfs_type: obfs_type.to_string(),
        host: host.to_string(),
        path: path.to_string(),
        tls: tls.to_string(),
    }
}

fn link_of_json(json: &str) -> String {
    format!("vmess://{}", base64::encode(json))
}

#[test]
fn deserialize() {
    let serialized = r#"{
            "v": "2",
            "ps": "IPOnlyV2N",
            "add": "123.23.3.12",
            "port": "1919",
            "id": "347e6167-68bf-40e2-a4ff-082f97ef6231",
            "aid": "233",
            "net": "tcp",
            "type": "none",
            "host": "",
            "path": "",
            "tls": ""
        }"#
    .to_string();
    let d = VmessConfig::from_json(&serialized).unwrap();
    let desired = r#"VmessConfig { v: "2", ps: "IPOnlyV2N", add: "123.23.3.12", port: "1919", id: "347e6167-68bf-40e2-a4ff-082f97ef6231", aid: "233", net: "tcp", type: "none", host: "", path: "", tls: "" }"#.to_string();
    let shown = format!(
        "VmessConfig {{ v: {:?}, ps: {:?}, add: {:?}, port: {:?}, id: {:?}, aid: {:?}, net: {:?}, type: {:?}, host: {:?}, path: {:?}, tls: {:?} }}",
        d.v, d.ps, d.add, d.port, d.id, d.aid, d.net, d.obfs_type, d.host, d.path, d.tls
    );
    assert_eq!(shown, desired);
}

#[test]
fn convert_1() {
    check_convert(FIRST_IN, FIRST_OUT);
}

#[test]
fn convert_2() {
    check_convert(SECOND_IN, SECOND_OUT);
}

#[test]
fn first_fixture_through_whole_text() {
    let out = convert_cfg_str(FIRST_IN, &ConvertConfig::default()).unwrap();
    assert_eq!(out, format!("{}\n", FIRST_OUT));
}

#[test]
fn second_fixture_clause_contents() {
    let out = convert_vmess_uri(SECOND_IN, &ConvertConfig::default_config()).unwrap();
    let clause = clause_of(&out);
    assert!(clause.contains("over-tls=true"));
    assert!(clause.contains("obfs=ws"));
    assert!(clause.contains("obfs-path=\"/where/\""));
    assert!(clause.contains(&format!("[Rr][Nn]User-Agent: {}\"", UA)));
}

#[test]
fn output_payload_decodes_to_clause() {
    let d = descriptor("tcp", "none", "", "", "");
    let cfg = ConvertConfig { group: "g".to_string(), method: "aes-128-gcm".to_string() };
    let out = d.to_quan_uri(&cfg);
    assert_eq!(
        clause_of(&out),
        "name = vmess, example.org, 443, aes-128-gcm, \"abc\", group=g, over-tls=false, certificate=1"
    );
    assert_ne!(&out[8..], "name = vmess, example.org, 443, aes-128-gcm, \"abc\", group=g, over-tls=false, certificate=1");
}

#[test]
fn full_obfs_clause_with_fallbacks() {
    let d = descriptor("kcp", "http", "", "", "tls");
    let out = d.to_quan_uri(&ConvertConfig::default());
    assert_eq!(
        clause_of(&out),
        format!(
            "name = vmess, example.org, 443, chacha20-ietf-poly1305, \"abc\", group=V2NtoQuan, over-tls=true, certificate=1, obfs=http, obfs-path=\"/\", obfs-header=\"Host: example.org[Rr][Nn]User-Agent: {}\"",
            UA
        )
    );
}

#[test]
fn obfs_omitted_for_none_without_ws() {
    for net in ["tcp", "kcp", "", "http"] {
        let clause = clause_of(&descriptor(net, "none", "h", "/p", "").to_quan_uri(&ConvertConfig::default()));
        assert!(!clause.contains("obfs="));
        assert!(clause.ends_with("certificate=1"));
    }
}

#[test]
fn transport_switch() {
    let ws = clause_of(&descriptor("ws", "none", "", "", "").to_quan_uri(&ConvertConfig::default()));
    assert!(ws.contains(", obfs=ws,"));
    assert!(!ws.contains("obfs=http"));
    let other = clause_of(&descriptor("tcp", "http", "", "", "").to_quan_uri(&ConvertConfig::default()));
    assert!(other.contains(", obfs=http,"));
    assert!(!other.contains("obfs=ws"));
    let upper = clause_of(&descriptor("WS", "http", "", "", "").to_quan_uri(&ConvertConfig::default()));
    assert!(upper.contains(", obfs=http,"));
}

#[test]
fn tls_flag_mapping() {
    let on = clause_of(&descriptor("tcp", "none", "", "", "tls").to_quan_uri(&ConvertConfig::default()));
    assert!(on.contains("over-tls=true"));
    for tls in ["", "none", "TLS", "tls "] {
        let off = clause_of(&descriptor("tcp", "none", "", "", tls).to_quan_uri(&ConvertConfig::default()));
        assert!(off.contains("over-tls=false"));
        assert!(!off.contains("over-tls=true"));
    }
}

#[test]
fn host_and_path_given() {
    let clause = clause_of(&descriptor("ws", "none", "cdn.example", "/x", "").to_quan_uri(&ConvertConfig::default()));
    assert!(clause.ends_with(&format!(
        ", obfs=ws, obfs-path=\"/x\", obfs-header=\"Host: cdn.example[Rr][Nn]User-Agent: {}\"",
        UA
    )));
}

#[test]
fn unmatched_lines_pass_through() {
    let cfg = ConvertConfig::default();
    assert_eq!(convert_cfg_str("plain line", &cfg), Ok("plain line".to_string()));
    assert_eq!(convert_cfg_str("", &cfg), Ok(String::new()));
    assert_eq!(convert_cfg_str("a\nb", &cfg), Ok("a\nb".to_string()));
    assert_eq!(convert_cfg_str("a\r\nb\n", &cfg), Ok("a\r\nb\n".to_string()));
    assert_eq!(convert_cfg_str("a\n\nb", &cfg), Ok("a\n\nb".to_string()));
    assert_eq!(convert_cfg_str("a\n", &cfg), Ok("a\n".to_string()));
    assert_eq!(convert_cfg_str("a\r", &cfg), Ok("a\r".to_string()));
    assert_eq!(
        convert_cfg_str("plain line\nanother line", &cfg),
        Ok("plain line\nanother line".to_string())
    );
    assert_eq!(convert_cfg_str("ss://abc", &cfg), Ok("ss://abc".to_string()));
}

#[test]
fn mixed_text() {
    let cfg = ConvertConfig::default();
    let text = format!("# list\r\n{}\r\nss://x\n{}", FIRST_IN, SECOND_IN);
    let out = convert_cfg_str(&text, &cfg).unwrap();
    assert_eq!(out, format!("# list\r\n{}\nss://x\n{}\n", FIRST_OUT, SECOND_OUT));
}

#[test]
fn converted_line_with_crlf_gets_one_newline() {
    let cfg = ConvertConfig::default();
    let text = format!("{}\r\n{}", FIRST_IN, FIRST_IN);
    let out = convert_cfg_str(&text, &cfg).unwrap();
    assert_eq!(out, format!("{}\n{}\n", FIRST_OUT, FIRST_OUT));
}

#[test]
fn custom_overrides() {
    let cfg = ConvertConfig { group: "Mine".to_string(), method: "none".to_string() };
    let out = convert_vmess_uri(FIRST_IN, &cfg).unwrap();
    assert_eq!(
        clause_of(&out),
        "IPOnlyV2N = vmess, 123.23.3.12, 1919, none, \"347e6167-68bf-40e2-a4ff-082f97ef6231\", group=Mine, over-tls=false, certificate=1"
    );
}

#[test]
fn malformed_base64_fails_whole_text() {
    let cfg = ConvertConfig::default();
    assert_eq!(convert_vmess_uri("vmess://not*base64", &cfg), Err(ConvertError::Base64));
    let text = format!("{}\nvmess://%%%\nplain", FIRST_IN);
    assert_eq!(convert_cfg_str(&text, &cfg), Err(ConvertError::Base64));
}

#[test]
fn non_json_payload_fails() {
    let cfg = ConvertConfig::default();
    let text = format!("x\n{}\n", link_of_json("not json"));
    assert_eq!(convert_cfg_str(&text, &cfg), Err(ConvertError::JsonShape));
}

#[test]
fn invalid_utf8_payload_fails() {
    let link = format!("vmess://{}", base64::encode([0xffu8, 0xfe, 0x80]));
    assert_eq!(convert_vmess_uri(&link, &ConvertConfig::default()), Err(ConvertError::TextEncoding));
}

#[test]
fn missing_or_non_string_member_fails() {
    let missing = r#"{"v":"2","ps":"a","add":"b","port":"1","id":"i","aid":"0","net":"tcp","type":"none","host":"","path":""}"#;
    assert_eq!(decode_vmess_uri(&link_of_json(missing)).unwrap_err(), ConvertError::JsonShape);
    let number = r#"{"v":"2","ps":"a","add":"b","port":1,"id":"i","aid":"0","net":"tcp","type":"none","host":"","path":"","tls":""}"#;
    assert_eq!(decode_vmess_uri(&link_of_json(number)).unwrap_err(), ConvertError::JsonShape);
    assert_eq!(VmessConfig::from_json("[1, 2]").unwrap_err(), ConvertError::JsonShape);
}

#[test]
fn extra_members_are_ignored() {
    let json = r#"{"v":"2","ps":"a","add":"b","port":"1","id":"i","aid":"0","net":"tcp","type":"none","host":"","path":"","tls":"","extra":[1,{"k":null}]}"#;
    let d = decode_vmess_uri(&link_of_json(json)).unwrap();
    assert_eq!(d.ps, "a");
    assert_eq!(d.obfs_type, "none");
    assert_eq!(d.tls, "");
}

#[test]
fn marker_anywhere_in_line_strips_first_eight_chars() {
    let cfg = ConvertConfig::default();
    let line = format!("{}", FIRST_IN);
    assert!(convert_cfg_str(&line, &cfg).is_ok());
    let shifted = format!("see {}", FIRST_IN);
    assert!(convert_cfg_str(&shifted, &cfg).is_err());
}

#[test]
fn default_settings() {
    let cfg = ConvertConfig::default();
    assert_eq!(cfg.group, "V2NtoQuan");
    assert_eq!(cfg.method, "chacha20-ietf-poly1305");
}

#[test]
fn index_greeting() {
    assert_eq!(index(), "Hello, world!");
}
