use tetrinet::{tnet_encrypt, tnet_encrypt_with_salt};

fn parse_hex(text: &str) -> Vec<u8> {
    let chars: Vec<char> = text.chars().collect();
    assert!(chars.len() % 2 == 0);
    chars
        .chunks(2)
        .map(|pair| (pair[0].to_digit(16).unwrap() * 16 + pair[1].to_digit(16).unwrap()) as u8)
        .collect()
}

fn ip_key(ip: [u8; 4]) -> Vec<u8> {
    let hash = ip[0] as u32 * 54 + ip[1] as u32 * 41 + ip[2] as u32 * 29 + ip[3] as u32 * 17;
    hash.to_string().into_bytes()
}

fn decrypt(bytes: &[u8], key: &[u8]) -> String {
    (1..bytes.len())
        .map(|i| {
            let v = ((bytes[i] ^ key[(i - 1) % key.len()]) as u32 + 255 - bytes[i - 1] as u32) % 255;
            char::from_u32(v).unwrap()
        })
        .collect()
}

#[test]
fn documented_login_of_dieterdh() {
    // 10*54 + 0*41 + 127*29 + 156*17 = 6875, the key of the documented example.
    let out = tnet_encrypt_with_salt("DieterDH", [10, 0, 127, 156], 0x2D);
    assert_eq!(out, "2D97C40EB529A42F96C10CB7E211429030A32E45B8EE187197FC");
    assert_eq!(decrypt(&parse_hex(&out), b"6875"), "tetrisstart DieterDH 1.13");
}

#[test]
fn login_with_fixed_salt() {
    assert_eq!(
        tnet_encrypt_with_salt("Babar", [127, 0, 0, 1], 0),
        "00429F23A03C973C85D07BD8CD26BF1543839BFB1F66A1"
    );
}

#[test]
fn login_with_empty_nickname_and_zero_key() {
    assert_eq!(
        tnet_encrypt_with_salt("", [0, 0, 0, 0], 255),
        "FF44993E80D97DC00556F85D4D5DBEDC3E41"
    );
}

#[test]
fn login_with_non_ascii_nickname_uses_code_points() {
    assert_eq!(
        tnet_encrypt_with_salt("Zoé", [192, 168, 1, 10], 7),
        "074A98399E3D81C30C58FF4552983D120303050303"
    );
    assert_eq!(
        tnet_encrypt_with_salt("Жук", [255, 255, 255, 255], 128),
        "80C718B51DB314B21E4A89CEDBCC216AB9DF375DA5"
    );
}

#[test]
fn login_round_trips_through_the_server_decoding() {
    let ip = [192, 168, 0, 42];
    for salt in [0u8, 1, 17, 128, 254, 255] {
        let out = tnet_encrypt_with_salt("Babar", ip, salt);
        let bytes = parse_hex(&out);
        assert_eq!(bytes[0], salt);
        assert_eq!(decrypt(&bytes, &ip_key(ip)), "tetrisstart Babar 1.13");
    }
}

#[test]
fn key_recovered_from_known_command() {
    let ip = [10, 0, 127, 156];
    let bytes = parse_hex(&tnet_encrypt_with_salt("x", ip, 99));
    let command: Vec<u32> = "tetrisstart".chars().map(|c| c as u32).collect();
    let key = ip_key(ip);
    for i in 0..command.len() {
        let recovered = (((command[i] + bytes[i] as u32) % 255) as u8) ^ bytes[i + 1];
        assert_eq!(recovered, key[i % key.len()]);
    }
}

#[test]
fn random_salt_login_is_an_encoding_with_its_own_salt() {
    let ip = [127, 0, 0, 1];
    let mut salts = std::collections::HashSet::new();
    for _ in 0..200 {
        let out = tnet_encrypt("Babar", ip);
        assert_eq!(out.len(), 2 * ("tetrisstart Babar 1.13".len() + 1));
        let salt = parse_hex(&out)[0];
        salts.insert(salt);
        assert_eq!(out, tnet_encrypt_with_salt("Babar", ip, salt));
        assert_eq!(decrypt(&parse_hex(&out), &ip_key(ip)), "tetrisstart Babar 1.13");
    }
    assert!(salts.len() > 1);
}
