use qpack::huffman::HuffmanTransformer;
use qpack::types::QpackError;
use qpack::varint::Qnum;

#[test]
fn qnum_encode_decode() {
    let mut values: Vec<u32> = (0..(u16::MAX as u32 * 2)).collect();
    values.push(u32::MAX);
    values.push(u32::MAX - 1);

    for i in values {
        for j in 1..=8 {
            let mut encoded = vec![];
            let len = Qnum::encode(&mut encoded, i, j);
            let out = Qnum::decode(&encoded, 0, j).unwrap();
            assert_eq!(i, out.1);
            assert_eq!(len, out.0);
        }
    }
}

// The worked integer example of HPACK: 1337 under a 5-bit prefix.
#[test]
fn qnum_exact_bytes() {
    let mut encoded = vec![];
    let len = Qnum::encode(&mut encoded, 1337, 5);
    assert_eq!(encoded, vec![0x1f, 0x9a, 0x0a]);
    assert_eq!(len, 3);
    assert_eq!(Qnum::decode(&encoded, 0, 5).unwrap(), (3, 1337));

    // A value that exactly fills the prefix still takes a continuation
    // byte.
    let mut encoded = vec![];
    let len = Qnum::encode(&mut encoded, 255, 8);
    assert_eq!(encoded, vec![0xff, 0x00]);
    assert_eq!(len, 2);
    assert_eq!(Qnum::decode(&encoded, 0, 8).unwrap(), (2, 255));
}

// A continuation running past the end of the buffer is malformed, as is a
// value beyond the 32-bit space.
#[test]
fn qnum_malformed() {
    assert_eq!(
        Qnum::decode(&vec![0x1f, 0x9a], 0, 5).unwrap_err(),
        QpackError::DecompressionFailed
    );
    // 2^32 under an 8-bit prefix.
    let mut encoded = vec![];
    Qnum::encode(&mut encoded, u32::MAX, 8);
    let last = encoded.len() - 1;
    encoded[last] += 1;
    assert_eq!(
        Qnum::decode(&encoded, 0, 8).unwrap_err(),
        QpackError::DecompressionFailed
    );
}

#[test]
fn huffman_encode_decode() {
    let values = vec![
        "www.example.com",
        "text/html,application/xhtml+xml,application/xml;q=0.9,image/avif,image/webp,image/apng,*/*;q=0.8,application/signed-exchange;v=b3;q=0.9",
        "KADUSERCOOKIE=DC83629A-1466-4455-ADA8-C50384E85218; KRTBCOOKIE_218=22978-YQOWxQADPCeMBAAC&KRTB&23194-YQOWxQADPCeMBAAC&KRTB&23209-YQOWxQADPCeMBAAC&KRTB&23244-YQOWxQADPCeMBAAC; PUBMDCID=1; KRTBCOOKIE_22=14911-8779088328085767086; KRTBCOOKIE_377=6810-1ac43ec6-1bef-405c-a69f-2282e44b5b8f&KRTB&22918-1ac43ec6-1bef-405c-a69f-2282e44b5b8f&KRTB&23031-1ac43ec6-1bef-405c-a69f-2282e44b5b8f; KRTBCOOKIE_148=19421-uid:CE8832BF05E64A41AF80185CCCFA9808; chkChromeAb67Sec=2; DPSync3=1628812800%3A228_236_197_201_219_221%7C1627689600%3A174%7C1628208000%3A164; SyncRTB3=1628812800%3A54_13_55_7_165_71_3_104_22_220_21_166%7C1628208000%3A223_15_2%7C1628899200%3A35; KRTBCOOKIE_57=22776-6643794442900246332; KRTBCOOKIE_188=3189-a615a81b-65de-4a1e-8789-5cf6a15bfbdd-610396c8-5553; KRTBCOOKIE_27=16735-uid:a4886103-96c5-4400-a5cf-c0fe8d774100&KRTB&16736-uid:a4886103-96c5-4400-a5cf-c0fe8d774100&KRTB&23019-uid:a4886103-96c5-4400-a5cf-c0fe8d774100&KRTB&23114-uid:a4886103-96c5-4400-a5cf-c0fe8d774100; SPugT=1627620497; KRTBCOOKIE_279=22890-36943784-f0fc-11eb-9ec2-af01490b4c1c&KRTB&23011-36943784-f0fc-11eb-9ec2-af01490b4c1c; PugT=1627625159",
        "h3=\":443\"; ma=2592000,h3-29=\":443\"; ma=2592000,h3-T051=\":443\"; ma=2592000,h3-Q050=\":443\"; ma=2592000,h3-Q046=\":443\"; ma=2592000,h3-Q043=\":443\"; ma=2592000,quic=\":443\"; ma=2592000; v=\"46,43\"",
        "KADUSERCOOKIE=DC83629A-1466-4455-ADA8-C50384E85218; KRTBCOOKIE_218=22978-YQOWxQADPCeMBAAC&KRTB&23194-YQOWxQADPCeMBAAC&KRTB&23209-YQOWxQADPCeMBAAC&KRTB&23244-YQOWxQADPCeMBAAC; PUBMDCID=1; KRTBCOOKIE_22=14911-8779088328085767086; KRTBCOOKIE_377=6810-1ac43ec6-1bef-405c-a69f-2282e44b5b8f&KRTB&22918-1ac43ec6-1bef-405c-a69f-2282e44b5b8f&KRTB&23031-1ac43ec6-1bef-405c-a69f-2282e44b5b8f; KRTBCOOKIE_148=19421-uid:CE8832BF05E64A41AF80185CCCFA9808; DPSync3=1628812800%3A228_236_197_201_219_221%7C1627689600%3A174%7C1628208000%3A164; KRTBCOOKIE_57=22776-6643794442900246332; KRTBCOOKIE_188=3189-a615a81b-65de-4a1e-8789-5cf6a15bfbdd-610396c8-5553; KRTBCOOKIE_27=16735-uid:a4886103-96c5-4400-a5cf-c0fe8d774100&KRTB&16736-uid:a4886103-96c5-4400-a5cf-c0fe8d774100&KRTB&23019-uid:a4886103-96c5-4400-a5cf-c0fe8d774100&KRTB&23114-uid:a4886103-96c5-4400-a5cf-c0fe8d774100; KRTBCOOKIE_279=22890-36943784-f0fc-11eb-9ec2-af01490b4c1c&KRTB&23011-36943784-f0fc-11eb-9ec2-af01490b4c1c; KRTBCOOKIE_1003=22761-36ae5810-f0fc-11eb-b829-fe381b36a5b8&KRTB&23275-36ae5810-f0fc-11eb-b829-fe381b36a5b8; KRTBCOOKIE_32=11175-AAAGgS23pWFH8ANAQ6bdAAAAAAA&KRTB&22713-AAAGgS23pWFH8ANAQ6bdAAAAAAA&KRTB&22715-AAAGgS23pWFH8ANAQ6bdAAAAAAA; KRTBCOOKIE_699=22727-AAFHwE7CBy4AAFCqWXkWTw; SPugT=1627625162; chkChromeAb67Sec=3; SyncRTB3=1628812800%3A55_3_220_5_71_21_48_57_13_165_104_22_8_56_54_7_166_176_189%7C1628899200%3A35%7C1628208000%3A223_15_38_2%7C1628467200%3A63%7C1630195200%3A224; KRTBCOOKIE_153=19420-TQUMj0ICWYpWAwXZGAURjhoNC4RWUFiPQwWnmNn3&KRTB&22979-TQUMj0ICWYpWAwXZGAURjhoNC4RWUFiPQwWnmNn3; KRTBCOOKIE_1074=22956-u_629f282d-3a0a-4fcf-a2c1-ff6c68cbc15d; KRTBCOOKIE_286=5193-Q6809115901295317427&KRTB&22521-Q6809115901295317427; KRTBCOOKIE_107=1471-uid:XaG8IGjA1M9lFc5; PugT=1627625189",
    ];
    let transformer = HuffmanTransformer::new();
    for value in values {
        let bytes = value.as_bytes().to_vec();
        let mut encoded = vec![];
        transformer.encode(&mut encoded, &bytes);
        let out = transformer.decode(&encoded, 0, encoded.len()).unwrap();
        assert_eq!(out, bytes);
    }
}

// The canonical coding of "www.example.com" from the worked examples of
// QPACK.
#[test]
fn huffman_exact_bytes() {
    let transformer = HuffmanTransformer::new();
    let mut encoded = vec![];
    transformer.encode(&mut encoded, &b"www.example.com".to_vec());
    assert_eq!(
        encoded,
        vec![0xf1, 0xe3, 0xc2, 0xe5, 0xf2, 0x3a, 0x6b, 0xa0, 0xab, 0x90, 0xf4, 0xff]
    );
    let out = transformer.decode(&encoded, 0, encoded.len()).unwrap();
    assert_eq!(out, b"www.example.com".to_vec());
}

// Decoding rejects the end-of-string code and padding that is not all ones.
#[test]
fn huffman_malformed() {
    let transformer = HuffmanTransformer::new();
    // Thirty-two one bits: the end-of-string code, then more ones.
    let eos = vec![0xff, 0xff, 0xff, 0xff];
    assert_eq!(
        transformer.decode(&eos, 0, 4).unwrap_err(),
        QpackError::DecompressionFailed
    );
    // The five-bit code of '0' followed by three zero bits: the leftover is
    // not the ones padding.
    let bad_pad = vec![0x00];
    assert_eq!(
        transformer.decode(&bad_pad, 0, 1).unwrap_err(),
        QpackError::DecompressionFailed
    );
}
