//! Addresses on the server.

use crate::ngx::key::{object_key, MODELS_MARKER};
use crate::number::{decimal, hex_upper, hex_upper_digit, push_decimal};
use crate::text::copy_text;
use vstd::prelude::*;
use vstd::utf8::encode_utf8;

verus! {

/// The NGX update server.
pub const NGX_HOST: &'static str = "https://ngx.download.nvidia.com";

/// What asks for a page of the bucket listing.
pub const LIST_ARGS: &'static str = "?list-type=2&max-keys=1000";

/// A byte that stands for itself in a query.
pub open spec fn unreserved(b: u8) -> bool {
    ||| 65 <= b <= 90
    ||| 97 <= b <= 122
    ||| 48 <= b <= 57
    ||| b == 45
    ||| b == 95
    ||| b == 46
    ||| b == 126
}

/// A byte as it stands in a query.
pub open spec fn encode_byte(b: u8) -> Seq<char> {
    if unreserved(b) {
        seq![b as char]
    } else {
        seq!['%', hex_upper(b / 16), hex_upper(b % 16)]
    }
}

/// Bytes as they stand in a query.
pub open spec fn encode_bytes(bytes: Seq<u8>) -> Seq<char>
    decreases bytes.len(),
{
    if bytes.len() == 0 {
        seq![]
    } else {
        encode_bytes(bytes.drop_last()) + encode_byte(bytes.last())
    }
}

/// A text as it stands in a query: its UTF-8 bytes, percent-encoded.
pub open spec fn url_encode_spec(s: Seq<char>) -> Seq<char> {
    encode_bytes(encode_utf8(s))
}

/// Encodes a text for a query: letters, digits and `-_.~` stand for
/// themselves, any other byte is written `%XX`.
pub fn url_encode(s: &str) -> (r: String)
    ensures
        r@ == url_encode_spec(s@),
{
    let bytes = s.as_bytes();
    let mut out = String::new();
    let mut i: usize = 0;
    while i < bytes.len()
        invariant
            i <= bytes@.len(),
            out@ == encode_bytes(bytes@.take(i as int)),
        decreases bytes@.len() - i,
    {
        let b = bytes[i];
        let plain = (65 <= b && b <= 90) || (97 <= b && b <= 122) || (48 <= b && b <= 57) || b == 45
            || b == 95 || b == 46 || b == 126;
        if plain {
            out.push(b as char);
        } else {
            out.push('%');
            out.push(hex_upper_digit(b / 16));
            out.push(hex_upper_digit(b % 16));
        }
        assert(bytes@.take(i + 1).drop_last() =~= bytes@.take(i as int));
        i = i + 1;
        assert(out@ =~= encode_bytes(bytes@.take(i as int)));
    }
    assert(bytes@.take(bytes@.len() as int) =~= bytes@);
    out
}

/// The address of the listing page that `token` continues; the first page for none.
pub open spec fn list_url_spec(token: Seq<char>) -> Seq<char> {
    let first = NGX_HOST@ + "/"@ + LIST_ARGS@;
    if token.len() == 0 {
        first
    } else {
        first + "&continuation-token="@ + url_encode_spec(token)
    }
}

/// The address of the listing page that `token` continues.
pub fn list_url(token: &str) -> (r: String)
    ensures
        r@ == list_url_spec(token@),
{
    let mut url = copy_text(NGX_HOST);
    url.append("/");
    url.append(LIST_ARGS);
    if !token.is_empty() {
        url.append("&continuation-token=");
        url.append(url_encode(token).as_str());
    }
    url
}

/// The address of the models of a namespace, which is all that stands before
/// the marker in the keys of its objects, the slash at its end included.
pub open spec fn models_url(ns: Seq<char>) -> Seq<char> {
    NGX_HOST@ + "/"@ + ns + MODELS_MARKER@
}

/// The address of the server configuration of a namespace.
pub open spec fn config_url_spec(ns: Seq<char>) -> Seq<char> {
    models_url(ns) + "config/versions/2/files/nvngx_server_config.txt"@
}

/// The address of the server configuration of a namespace.
pub fn config_url(ns: &str) -> (r: String)
    ensures
        r@ == config_url_spec(ns@),
{
    let mut url = copy_text(NGX_HOST);
    url.append("/");
    url.append(ns);
    url.append(MODELS_MARKER);
    url.append("config/versions/2/files/nvngx_server_config.txt");
    url
}

/// The address of a payload.
pub open spec fn payload_url_spec(
    ns: Seq<char>,
    dir: Seq<char>,
    version_id: u32,
    payload: Seq<char>,
) -> Seq<char> {
    models_url(ns) + dir + "/versions/"@ + decimal(version_id as nat) + "/files/"@ + payload
}

/// The address of a payload.
pub fn payload_url(ns: &str, dir: &str, version_id: u32, payload: &str) -> (r: String)
    ensures
        r@ == payload_url_spec(ns@, dir@, version_id, payload@),
{
    let mut url = copy_text(NGX_HOST);
    url.append("/");
    url.append(ns);
    url.append(MODELS_MARKER);
    url.append(dir);
    url.append("/versions/");
    push_decimal(&mut url, version_id as u64);
    url.append("/files/");
    url.append(payload);
    url
}

/// The address of the sha256 sidecar of the payload at `url`.
pub open spec fn sidecar_url_spec(url: Seq<char>) -> Seq<char> {
    url + ".sha256"@
}

/// The address of the sha256 sidecar of the payload at `url`.
pub fn sidecar_url(url: &str) -> (r: String)
    ensures
        r@ == sidecar_url_spec(url@),
{
    let mut out = copy_text(url);
    out.append(".sha256");
    out
}

// ---------------------------------------------------------------------------
// Laws
// ---------------------------------------------------------------------------

/// The value of a hexadecimal digit with capital letters.
pub open spec fn hex_value(c: char) -> u8 {
    if '0' <= c <= '9' {
        (c as u8 - 48) as u8
    } else {
        (c as u8 - 55) as u8
    }
}

/// The bytes that a percent-encoded text stands for.
pub open spec fn decode_bytes(s: Seq<char>) -> Seq<u8>
    decreases s.len(),
{
    if s.len() == 0 {
        seq![]
    } else if s[0] == '%' && s.len() >= 3 {
        seq![(hex_value(s[1]) * 16 + hex_value(s[2])) as u8] + decode_bytes(s.skip(3))
    } else {
        seq![s[0] as u8] + decode_bytes(s.skip(1))
    }
}

/// A byte encoded in front of a text is decoded in front of what the text stands for.
proof fn lemma_decode_first(b: u8, rest: Seq<char>)
    ensures
        decode_bytes(encode_byte(b) + rest) == seq![b] + decode_bytes(rest),
{
    let s = encode_byte(b) + rest;
    if unreserved(b) {
        assert(s.skip(1) =~= rest);
        assert(s[0] == b as char);
    } else {
        assert(s.skip(3) =~= rest);
        assert(s[0] == '%');
        assert(hex_value(hex_upper(b / 16)) == b / 16);
        assert(hex_value(hex_upper(b % 16)) == b % 16);
    }
}

/// Encoding byte by byte from the front.
proof fn lemma_encode_front(bytes: Seq<u8>, rest: Seq<char>)
    ensures
        decode_bytes(encode_bytes(bytes) + rest) == bytes + decode_bytes(rest),
    decreases bytes.len(),
{
    if bytes.len() == 0 {
        assert(encode_bytes(bytes) + rest =~= rest);
        assert(bytes + decode_bytes(rest) =~= decode_bytes(rest));
    } else {
        let front = bytes.drop_last();
        let last = encode_byte(bytes.last());
        assert(encode_bytes(bytes) + rest =~= encode_bytes(front) + (last + rest));
        lemma_encode_front(front, last + rest);
        lemma_decode_first(bytes.last(), rest);
        assert(front + (seq![bytes.last()] + decode_bytes(rest)) =~= bytes + decode_bytes(rest));
    }
}

/// The address of a payload is the server, a slash and the key of the object;
/// and so it is for its sidecar, whose file name is that of the payload with
/// `.sha256` behind it.
pub proof fn law_address_is_key(
    ns: Seq<char>,
    dir: Seq<char>,
    version_id: u32,
    payload: Seq<char>,
)
    ensures
        payload_url_spec(ns, dir, version_id, payload) == NGX_HOST@ + "/"@ + object_key(
            ns,
            dir,
            decimal(version_id as nat),
            payload,
        ),
        sidecar_url_spec(payload_url_spec(ns, dir, version_id, payload)) == NGX_HOST@ + "/"@
            + object_key(ns, dir, decimal(version_id as nat), payload + ".sha256"@),
{
    let v = decimal(version_id as nat);
    reveal_strlit("/versions/");
    reveal_strlit("versions");
    reveal_strlit("/files/");
    reveal_strlit("files");
    assert("/versions/"@ =~= seq!['/'] + "versions"@ + seq!['/']);
    assert("/files/"@ =~= seq!['/'] + "files"@ + seq!['/']);
    assert(payload_url_spec(ns, dir, version_id, payload) =~= NGX_HOST@ + "/"@ + object_key(
        ns,
        dir,
        v,
        payload,
    ));
    assert(sidecar_url_spec(payload_url_spec(ns, dir, version_id, payload)) =~= NGX_HOST@ + "/"@
        + object_key(ns, dir, v, payload + ".sha256"@));
}

/// Decoding an encoded text gives back its bytes: no two texts are encoded alike.
pub proof fn law_url_encode_decodes(s: Seq<char>)
    ensures
        decode_bytes(url_encode_spec(s)) == encode_utf8(s),
{
    let bytes = encode_utf8(s);
    lemma_encode_front(bytes, seq![]);
    assert(encode_bytes(bytes) + Seq::<char>::empty() =~= encode_bytes(bytes));
    assert(bytes + decode_bytes(seq![]) =~= bytes);
}

/// The addresses of the listing and of the configuration of a namespace.
pub proof fn law_other_addresses(ns: Seq<char>, token: Seq<char>)
    ensures
        list_url_spec(Seq::<char>::empty())
            == "https://ngx.download.nvidia.com/?list-type=2&max-keys=1000"@,
        token.len() > 0 ==> list_url_spec(token) == list_url_spec(Seq::<char>::empty())
            + "&continuation-token="@ + url_encode_spec(token),
        config_url_spec(ns) == NGX_HOST@ + "/"@ + ns
            + "org/nvidia/team/ngx/models/config/versions/2/files/nvngx_server_config.txt"@,
{
    reveal_strlit("https://ngx.download.nvidia.com/?list-type=2&max-keys=1000");
    reveal_strlit("https://ngx.download.nvidia.com");
    reveal_strlit("/");
    reveal_strlit("?list-type=2&max-keys=1000");
    assert(list_url_spec(Seq::<char>::empty())
        =~= "https://ngx.download.nvidia.com/?list-type=2&max-keys=1000"@);
    reveal_strlit("org/nvidia/team/ngx/models/");
    reveal_strlit("config/versions/2/files/nvngx_server_config.txt");
    reveal_strlit("org/nvidia/team/ngx/models/config/versions/2/files/nvngx_server_config.txt");
    assert("org/nvidia/team/ngx/models/config/versions/2/files/nvngx_server_config.txt"@
        =~= "org/nvidia/team/ngx/models/"@ + "config/versions/2/files/nvngx_server_config.txt"@);
    assert(config_url_spec(ns) =~= NGX_HOST@ + "/"@ + ns
        + "org/nvidia/team/ngx/models/config/versions/2/files/nvngx_server_config.txt"@);
}

/// Bytes are encoded one by one: letters, digits and `-_.~` stand for
/// themselves, and any other byte is a percent sign and two digits.
pub proof fn law_encoding(bytes: Seq<u8>, b: u8)
    ensures
        encode_bytes(Seq::<u8>::empty()).len() == 0,
        encode_bytes(bytes.push(b)) == encode_bytes(bytes) + encode_byte(b),
        ({
            let c = b as char;
            let plain = ('A' <= c <= 'Z') || ('a' <= c <= 'z') || ('0' <= c <= '9') || c == '-' || c
                == '_' || c == '.' || c == '~';
            &&& plain ==> encode_byte(b) == seq![c]
            &&& !plain ==> {
                let hi = encode_byte(b)[1] as int;
                let lo = encode_byte(b)[2] as int;
                &&& encode_byte(b).len() == 3 && encode_byte(b)[0] == '%'
                &&& hi == b / 16 + (if b / 16 < 10 {
                    48int
                } else {
                    55
                })
                &&& lo == b % 16 + (if b % 16 < 10 {
                    48int
                } else {
                    55
                })
            }
        }),
{
    assert(bytes.push(b).drop_last() =~= bytes);
}

/// Where a payload and its sidecar are, letter by letter.
pub proof fn law_payload_address(
    ns: Seq<char>,
    dir: Seq<char>,
    version_id: u32,
    payload: Seq<char>,
)
    ensures
        payload_url_spec(ns, dir, version_id, payload) == "https://ngx.download.nvidia.com/"@ + ns
            + "org/nvidia/team/ngx/models/"@ + dir + "/versions/"@ + decimal(version_id as nat)
            + "/files/"@ + payload,
        sidecar_url_spec(payload) == payload + ".sha256"@,
{
    reveal_strlit("https://ngx.download.nvidia.com/");
    reveal_strlit("https://ngx.download.nvidia.com");
    reveal_strlit("/");
    assert("https://ngx.download.nvidia.com/"@ =~= "https://ngx.download.nvidia.com"@ + "/"@);
}

/// What a token is turned into for an address: its bytes, encoded one by one.
pub proof fn law_token_encoding(s: Seq<char>)
    ensures
        url_encode_spec(s) == encode_bytes(encode_utf8(s)),
{
}

} // verus!
