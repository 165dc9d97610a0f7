//! The encoded `tetrisstart` command that a client sends right after it connects.
//!
//! The plain command is `tetrisstart <nickname> 1.13`. It is encoded with a key made of
//! the decimal digits of a weighted sum of the server's IPv4 address, and a random salt
//! byte: each output byte mixes the previous output byte with one character of the
//! command and one key digit, and every byte is written as two upper-case hex digits.

use vstd::prelude::*;

verus! {

/// `String::push` appends `ch` at the end of the string (std documentation).
pub assume_specification[ String::push ](s: &mut String, ch: char)
    ensures
        final(s)@ == old(s)@.push(ch),
;

/// `rand::random_range` on `low..=high`: a value drawn from the thread-local generator.
/// Claimed: the value lies in the inclusive range; which value comes out is not stated.
/// The call panics on an empty range, hence `low <= high`.
#[verifier::external_body]
fn random_in_inclusive_range(low: u8, high: u8) -> (r: u8)
    requires
        low <= high,
    ensures
        low <= r <= high,
{
    rand::random_range(low..=high)
}

/// The plain login command: `tetrisstart <nickname> 1.13`.
pub open spec fn login_command(nickname: Seq<char>) -> Seq<char> {
    seq!['t', 'e', 't', 'r', 'i', 's', 's', 't', 'a', 'r', 't', ' '] + nickname + seq![
        ' ',
        '1',
        '.',
        '1',
        '3',
    ]
}

/// The weighted sum of the four bytes of the server's IPv4 address.
pub open spec fn ip_hash(ip: Seq<u8>) -> nat {
    (ip[0] * 54 + ip[1] * 41 + ip[2] * 29 + ip[3] * 17) as nat
}

/// ASCII code of the decimal digit `d`.
pub open spec fn ascii_digit(d: nat) -> u8 {
    (48 + d) as u8
}

/// ASCII codes of the decimal representation of `n`, without leading zeros.
pub open spec fn decimal_ascii(n: nat) -> Seq<u8>
    decreases n,
{
    if n < 10 {
        seq![ascii_digit(n)]
    } else {
        decimal_ascii(n / 10).push(ascii_digit(n % 10))
    }
}

/// The key that the encoding repeats: the decimal digits of `ip_hash(ip)`, as ASCII codes.
pub open spec fn login_key(ip: Seq<u8>) -> Seq<u8> {
    decimal_ascii(ip_hash(ip))
}

/// One encoding step: the previous output byte plus the character's code point, taken
/// modulo 255 without any wrap-around before it, XOR-ed with the key byte.
pub open spec fn mix(prev: u8, c: char, k: u8) -> u8 {
    (((prev as int + (c as u32) as int) % 255) as u8) ^ k
}

/// The encoded bytes: the salt, then one byte per character of `msg`, each one mixed
/// from the byte before it, the character, and the key repeated cyclically.
pub open spec fn cipher_bytes(msg: Seq<char>, key: Seq<u8>, salt: u8) -> Seq<u8>
    decreases msg.len(),
{
    if msg.len() == 0 {
        seq![salt]
    } else {
        let prev = cipher_bytes(msg.drop_last(), key, salt);
        prev.push(mix(prev.last(), msg.last(), key[(msg.len() - 1) % (key.len() as int)]))
    }
}

/// Upper-case hexadecimal digit for `d < 16`.
pub open spec fn hex_digit(d: u8) -> char {
    if d < 10 {
        (48 + d) as char
    } else {
        (55 + d) as char
    }
}

/// Two upper-case hex digits of a byte, high nibble first.
pub open spec fn hex_byte(b: u8) -> Seq<char> {
    seq![hex_digit(b / 16), hex_digit(b % 16)]
}

/// Upper-case hex text of a byte sequence, two digits per byte.
pub open spec fn hex_upper(bytes: Seq<u8>) -> Seq<char>
    decreases bytes.len(),
{
    if bytes.len() == 0 {
        seq![]
    } else {
        hex_upper(bytes.drop_last()) + hex_byte(bytes.last())
    }
}

/// The encoded login command for `nickname`, a server at `ip`, and `salt`.
pub open spec fn encrypted_login(nickname: Seq<char>, ip: Seq<u8>, salt: u8) -> Seq<char> {
    hex_upper(cipher_bytes(login_command(nickname), login_key(ip), salt))
}

fn hex_digit_char(d: u8) -> (c: char)
    requires
        d < 16,
    ensures
        c == hex_digit(d),
{
    if d < 10 {
        (48u8 + d) as char
    } else {
        (55u8 + d) as char
    }
}

fn push_hex_byte(out: &mut String, b: u8)
    ensures
        final(out)@ == old(out)@ + hex_byte(b),
{
    out.push(hex_digit_char(b / 16));
    out.push(hex_digit_char(b % 16));
}

fn push_decimal(n: u32, out: &mut Vec<u8>)
    ensures
        final(out)@ == old(out)@ + decimal_ascii(n as nat),
    decreases n,
{
    if n >= 10 {
        push_decimal(n / 10, out);
    }
    out.push(48u8 + (n % 10) as u8);
}

/// The plain login command for `nickname`, one character per element.
fn login_command_chars(nickname: &str) -> (msg: Vec<char>)
    ensures
        msg@ == login_command(nickname@),
{
    let mut msg: Vec<char> = Vec::new();
    msg.push('t');
    msg.push('e');
    msg.push('t');
    msg.push('r');
    msg.push('i');
    msg.push('s');
    msg.push('s');
    msg.push('t');
    msg.push('a');
    msg.push('r');
    msg.push('t');
    msg.push(' ');
    let ghost head = msg@;
    for c in it: nickname.chars()
        invariant
            msg@ == head + it.seq().take(it.index() as int),
            it.seq() == nickname@,
    {
        msg.push(c);
    }
    msg.push(' ');
    msg.push('1');
    msg.push('.');
    msg.push('1');
    msg.push('3');
    msg
}

/// The encoded login command for `nickname` and a server at `ip`, with a given salt.
///
/// The result is the hex text of the salt followed by one byte per character of
/// `tetrisstart <nickname> 1.13`.
pub fn tnet_encrypt_with_salt(nickname: &str, ip: [u8; 4], salt: u8) -> (res: String)
    ensures
        res@ == encrypted_login(nickname@, ip@, salt),
{
    let msg = login_command_chars(nickname);
    let hash: u32 = ip[0] as u32 * 54 + ip[1] as u32 * 41 + ip[2] as u32 * 29 + ip[3] as u32 * 17;
    let mut key: Vec<u8> = Vec::new();
    push_decimal(hash, &mut key);
    assert(key@ == login_key(ip@));
    let mut dec: u8 = salt;
    let mut out = String::new();
    push_hex_byte(&mut out, dec);
    assert(msg@.take(0) =~= Seq::<char>::empty());
    assert(out@ =~= hex_upper(cipher_bytes(msg@.take(0), key@, salt))) by {
        reveal_with_fuel(hex_upper, 2);
    }
    let mut i: usize = 0;
    while i < msg.len()
        invariant
            i <= msg@.len(),
            msg@ == login_command(nickname@),
            key@ == login_key(ip@),
            key@.len() > 0,
            cipher_bytes(msg@.take(i as int), key@, salt).last() == dec,
            out@ == hex_upper(cipher_bytes(msg@.take(i as int), key@, salt)),
        decreases msg@.len() - i,
    {
        let c = msg[i];
        let k = key[i % key.len()];
        let code: u32 = c as u32;
        proof {
            vstd::utf8::char_is_scalar(c);
        }
        let t: u32 = (dec as u32 + code) % 255;
        let ghost prev = dec;
        dec = (t as u8) ^ k;
        push_hex_byte(&mut out, dec);
        proof {
            let taken = msg@.take(i + 1);
            assert(taken.drop_last() =~= msg@.take(i as int));
            assert(taken.last() == c);
            assert(dec == mix(prev, c, key@[(i as int) % (key@.len() as int)]));
            let before = cipher_bytes(msg@.take(i as int), key@, salt);
            let after = cipher_bytes(taken, key@, salt);
            assert(after == before.push(dec));
            assert(after.drop_last() =~= before);
        }
        i += 1;
    }
    assert(msg@.take(msg@.len() as int) =~= msg@);
    out
}

/// The encoded login command for `nickname` and a server at `ip`, salted with a random
/// byte. Whatever byte the generator gives, the result is the encoding with that salt.
pub fn tnet_encrypt(nickname: &str, ip: [u8; 4]) -> (res: String)
    ensures
        exists|salt: u8| res@ == encrypted_login(nickname@, ip@, salt),
{
    let salt = random_in_inclusive_range(0, 255);
    tnet_encrypt_with_salt(nickname, ip, salt)
}

/// Value of an upper-case hex digit: `'0'..='9'` and `'A'..='F'`.
pub open spec fn hex_value(c: char) -> int {
    if (c as u32) < 65 {
        (c as u32) - 48
    } else {
        (c as u32) - 55
    }
}

/// The bytes that a hex text spells, two digits per byte, high nibble first.
pub open spec fn parse_hex(text: Seq<char>) -> Seq<u8> {
    Seq::new(
        text.len() / 2,
        |i: int| (hex_value(text[2 * i]) * 16 + hex_value(text[2 * i + 1])) as u8,
    )
}

/// The receiving side's decoding of encoded bytes with a key: character `i` is
/// `((bytes[i + 1] ^ key[i % len]) + 255 - bytes[i]) % 255`.
pub open spec fn decrypt(bytes: Seq<u8>, key: Seq<u8>) -> Seq<char> {
    Seq::new(
        (bytes.len() - 1) as nat,
        |i: int|
            (((((bytes[i + 1] ^ key[i % (key.len() as int)]) as int) + 255 - bytes[i] as int)
                % 255) as u32) as char,
    )
}

proof fn lemma_xor_twice(x: u8, k: u8)
    by (bit_vector)
    ensures
        (x ^ k) ^ k == x,
        x ^ (x ^ k) == k,
{
}

proof fn lemma_hex_digit_value(d: u8)
    requires
        d < 16,
    ensures
        hex_value(hex_digit(d)) == d,
{
}

/// Shape of the encoded bytes: the salt first, then byte `i + 1` mixed from byte `i`,
/// character `i` of the message and key byte `i % key.len()`.
pub proof fn lemma_cipher_bytes_shape(msg: Seq<char>, key: Seq<u8>, salt: u8)
    requires
        key.len() > 0,
    ensures
        cipher_bytes(msg, key, salt).len() == msg.len() + 1,
        cipher_bytes(msg, key, salt)[0] == salt,
        forall|i: int|
            #![trigger msg[i]]
            0 <= i < msg.len() ==> cipher_bytes(msg, key, salt)[i + 1] == mix(
                cipher_bytes(msg, key, salt)[i],
                msg[i],
                key[i % (key.len() as int)],
            ),
    decreases msg.len(),
{
    if msg.len() > 0 {
        let shorter = msg.drop_last();
        lemma_cipher_bytes_shape(shorter, key, salt);
        let prev = cipher_bytes(shorter, key, salt);
        assert forall|i: int| #![trigger msg[i]] 0 <= i < msg.len() implies cipher_bytes(
            msg,
            key,
            salt,
        )[i + 1] == mix(cipher_bytes(msg, key, salt)[i], msg[i], key[i % (key.len() as int)]) by {
            if i < msg.len() - 1 {
                assert(shorter[i] == msg[i]);
            }
        }
    }
}

/// Shape of hex text: two characters per byte, the high nibble's digit first.
pub proof fn lemma_hex_upper_shape(bytes: Seq<u8>)
    ensures
        hex_upper(bytes).len() == 2 * bytes.len(),
        forall|i: int|
            #![trigger bytes[i]]
            0 <= i < bytes.len() ==> hex_upper(bytes)[2 * i] == hex_digit(bytes[i] / 16)
                && hex_upper(bytes)[2 * i + 1] == hex_digit(bytes[i] % 16),
    decreases bytes.len(),
{
    if bytes.len() > 0 {
        let shorter = bytes.drop_last();
        lemma_hex_upper_shape(shorter);
        assert forall|i: int| #![trigger bytes[i]] 0 <= i < bytes.len() implies hex_upper(
            bytes,
        )[2 * i] == hex_digit(bytes[i] / 16) && hex_upper(bytes)[2 * i + 1] == hex_digit(
            bytes[i] % 16,
        ) by {
            if i < bytes.len() - 1 {
                assert(shorter[i] == bytes[i]);
            }
        }
    }
}

/// Reading hex text back gives the bytes it was written from.
pub proof fn lemma_parse_hex_upper(bytes: Seq<u8>)
    ensures
        parse_hex(hex_upper(bytes)) == bytes,
{
    lemma_hex_upper_shape(bytes);
    let text = hex_upper(bytes);
    assert forall|i: int| 0 <= i < bytes.len() implies #[trigger] parse_hex(text)[i] == bytes[i] by {
        let b = bytes[i];
        lemma_hex_digit_value(b / 16);
        lemma_hex_digit_value(b % 16);
        assert(text[2 * i] == hex_digit(b / 16));
        assert(text[2 * i + 1] == hex_digit(b % 16));
    }
    assert(parse_hex(text) =~= bytes);
}

proof fn lemma_mod_255_step_inverse(e: int, c: int)
    requires
        0 <= e <= 255,
        0 <= c < 255,
    ensures
        (((e + c) % 255) + 255 - e) % 255 == c,
{
    if e + c < 255 {
        assert((e + c) % 255 == e + c);
        assert((c + 255) % 255 == c);
    } else {
        assert((e + c) % 255 == e + c - 255);
        assert(c % 255 == c);
    }
}

/// Decoding with the same key gives back every message whose characters all have
/// codes below 255 (the code 255 itself decodes to 0).
pub proof fn lemma_decrypt_cipher_bytes(msg: Seq<char>, key: Seq<u8>, salt: u8)
    requires
        key.len() > 0,
        forall|i: int| 0 <= i < msg.len() ==> (#[trigger] msg[i] as u32) < 255,
    ensures
        decrypt(cipher_bytes(msg, key, salt), key) == msg,
{
    lemma_cipher_bytes_shape(msg, key, salt);
    let b = cipher_bytes(msg, key, salt);
    assert forall|i: int| 0 <= i < msg.len() implies #[trigger] decrypt(b, key)[i] == msg[i] by {
        let k = key[i % (key.len() as int)];
        let code = msg[i] as u32;
        let x = ((b[i] as int + code as int) % 255) as u8;
        assert(b[i + 1] == x ^ k);
        lemma_xor_twice(x, k);
        lemma_mod_255_step_inverse(b[i] as int, code as int);
        vstd::utf8::char_u32_cast(msg[i], code);
    }
    assert(decrypt(b, key) =~= msg);
}

/// The key can be read back from the encoded bytes and the plain message:
/// mixing byte `i` with character `i` and XOR-ing with byte `i + 1` gives key byte `i`.
pub proof fn lemma_key_recovery(msg: Seq<char>, key: Seq<u8>, salt: u8)
    requires
        key.len() > 0,
    ensures
        forall|i: int|
            #![trigger msg[i]]
            0 <= i < msg.len() ==> mix(
                cipher_bytes(msg, key, salt)[i],
                msg[i],
                cipher_bytes(msg, key, salt)[i + 1],
            ) == key[i % (key.len() as int)],
{
    lemma_cipher_bytes_shape(msg, key, salt);
    let b = cipher_bytes(msg, key, salt);
    assert forall|i: int| #![trigger msg[i]] 0 <= i < msg.len() implies mix(
        b[i],
        msg[i],
        b[i + 1],
    ) == key[i % (key.len() as int)] by {
        let k = key[i % (key.len() as int)];
        let x = ((b[i] as int + (msg[i] as u32) as int) % 255) as u8;
        lemma_xor_twice(x, k);
    }
}

/// The key has at least one digit, and every byte of it is an ASCII decimal digit.
pub proof fn lemma_decimal_ascii_digits(n: nat)
    ensures
        decimal_ascii(n).len() > 0,
        forall|i: int|
            0 <= i < decimal_ascii(n).len() ==> 48 <= #[trigger] decimal_ascii(n)[i] <= 57,
    decreases n,
{
    if n >= 10 {
        lemma_decimal_ascii_digits(n / 10);
        let shorter = decimal_ascii(n / 10);
        assert forall|i: int|
            0 <= i < decimal_ascii(n).len() implies 48 <= #[trigger] decimal_ascii(n)[i] <= 57 by {
            if i < shorter.len() {
                assert(decimal_ascii(n)[i] == shorter[i]);
            }
        }
    }
}

/// Every character of the plain command other than the nickname's has a code below 255.
proof fn lemma_login_command_codes(nickname: Seq<char>)
    requires
        forall|i: int| 0 <= i < nickname.len() ==> (#[trigger] nickname[i] as u32) < 255,
    ensures
        forall|i: int|
            0 <= i < login_command(nickname).len() ==> (#[trigger] login_command(nickname)[i]
                as u32) < 255,
{
    let cmd = login_command(nickname);
    assert forall|i: int| 0 <= i < cmd.len() implies (#[trigger] cmd[i] as u32) < 255 by {
        if 12 <= i < 12 + nickname.len() {
            assert(cmd[i] == nickname[i - 12]);
        }
    }
}

/// What the server reads out of an encoded login: the first hex pair is the salt, and
/// decoding the rest with the IP's key gives `tetrisstart <nickname> 1.13` back, for every
/// nickname whose characters all have codes below 255.
pub proof fn lemma_login_round_trip(nickname: Seq<char>, ip: Seq<u8>, salt: u8)
    requires
        forall|i: int| 0 <= i < nickname.len() ==> (#[trigger] nickname[i] as u32) < 255,
    ensures
        parse_hex(encrypted_login(nickname, ip, salt))[0] == salt,
        decrypt(parse_hex(encrypted_login(nickname, ip, salt)), login_key(ip)) == login_command(
            nickname,
        ),
{
    let key = login_key(ip);
    let cmd = login_command(nickname);
    lemma_decimal_ascii_digits(ip_hash(ip));
    lemma_login_command_codes(nickname);
    lemma_cipher_bytes_shape(cmd, key, salt);
    lemma_parse_hex_upper(cipher_bytes(cmd, key, salt));
    lemma_decrypt_cipher_bytes(cmd, key, salt);
}


/// The number that a sequence of ASCII decimal digits spells, most significant first.
pub open spec fn decimal_value(digits: Seq<u8>) -> nat
    decreases digits.len(),
{
    if digits.len() == 0 {
        0
    } else {
        decimal_value(digits.drop_last()) * 10 + (digits.last() - 48) as nat
    }
}

proof fn lemma_decimal_ascii_value(n: nat)
    ensures
        decimal_value(decimal_ascii(n)) == n,
        n > 0 ==> decimal_ascii(n)[0] != 48,
        n == 0 ==> decimal_ascii(n) == seq![48u8],
    decreases n,
{
    if n >= 10 {
        lemma_decimal_ascii_value(n / 10);
        lemma_decimal_ascii_digits(n / 10);
        let shorter = decimal_ascii(n / 10);
        assert(decimal_ascii(n).drop_last() =~= shorter);
        assert(decimal_ascii(n)[0] == shorter[0]);
        let last = decimal_ascii(n).last();
        assert(last == ascii_digit(n % 10));
        assert((last - 48) as nat == n % 10);
        assert(decimal_value(decimal_ascii(n)) == (n / 10) * 10 + n % 10);
        assert((n / 10) * 10 + n % 10 == n);
    } else {
        assert(decimal_ascii(n).drop_last() =~= Seq::<u8>::empty());
        assert(decimal_ascii(n).last() == ascii_digit(n));
        assert(decimal_value(Seq::<u8>::empty()) == 0);
        assert(decimal_value(decimal_ascii(n)) == n);
    }
}

/// The key is exactly the decimal writing of the IP hash: ASCII digits that spell the
/// hash, with no leading zero (a single `'0'` for a zero hash).
pub proof fn lemma_login_key_is_decimal_hash(ip: Seq<u8>)
    ensures
        login_key(ip).len() > 0,
        forall|i: int| 0 <= i < login_key(ip).len() ==> 48 <= #[trigger] login_key(ip)[i] <= 57,
        decimal_value(login_key(ip)) == ip_hash(ip),
        ip_hash(ip) > 0 ==> login_key(ip)[0] != 48,
        ip_hash(ip) == 0 ==> login_key(ip) == seq![48u8],
{
    lemma_decimal_ascii_digits(ip_hash(ip));
    lemma_decimal_ascii_value(ip_hash(ip));
}

/// The plain command holds the whole nickname between `tetrisstart ` and ` 1.13`.
pub proof fn lemma_login_command_layout(nickname: Seq<char>)
    ensures
        login_command(nickname).len() == nickname.len() + 17,
        login_command(nickname).subrange(12, 12 + nickname.len() as int) == nickname,
        login_command(nickname).subrange(0, 12) == seq![
            't',
            'e',
            't',
            'r',
            'i',
            's',
            's',
            't',
            'a',
            'r',
            't',
            ' ',
        ],
        login_command(nickname).subrange(12 + nickname.len() as int, 17 + nickname.len() as int)
            == seq![' ', '1', '.', '1', '3'],
{
    let cmd = login_command(nickname);
    assert(cmd.subrange(12, 12 + nickname.len() as int) =~= nickname);
    assert(cmd.subrange(0, 12) =~= seq!['t', 'e', 't', 'r', 'i', 's', 's', 't', 'a', 'r', 't', ' ']);
    assert(cmd.subrange(12 + nickname.len() as int, 17 + nickname.len() as int) =~= seq![
        ' ',
        '1',
        '.',
        '1',
        '3',
    ]);
}

/// Decoding an encoded login gives back the whole nickname, for nicknames whose
/// characters all have codes below 255.
pub proof fn lemma_login_round_trip_nickname(nickname: Seq<char>, ip: Seq<u8>, salt: u8)
    requires
        forall|i: int| 0 <= i < nickname.len() ==> (#[trigger] nickname[i] as u32) < 255,
    ensures
        decrypt(parse_hex(encrypted_login(nickname, ip, salt)), login_key(ip)).len()
            == nickname.len() + 17,
        decrypt(parse_hex(encrypted_login(nickname, ip, salt)), login_key(ip)).subrange(
            12,
            12 + nickname.len() as int,
        ) == nickname,
{
    lemma_login_round_trip(nickname, ip, salt);
    lemma_login_command_layout(nickname);
}


/// The IP hash weighs the four bytes of the address by 54, 41, 29 and 17, in order, so
/// it never exceeds `255 * 141`.
pub proof fn lemma_ip_hash_weights(ip: Seq<u8>)
    ensures
        ip_hash(ip) == 54 * ip[0] + 41 * ip[1] + 29 * ip[2] + 17 * ip[3],
        ip_hash(ip) <= 255 * 141,
{
}

} // verus!
