use clipper_server::rpc::{
    decode_fixed_bytes, decode_fixed_ints, decode_strs, decode_var_bytes, decode_var_ints,
    encode_batch, encode_fixed_bytes, encode_fixed_floats, encode_fixed_ints, encode_strs,
    encode_var_bytes, encode_var_floats, encode_var_ints, frame_strs, is_shutdown_ack,
    shutdown_message, split_strs, strs_decodable, strs_payload_bytes, try_decode_strs, Input,
    InputType, RpcPredictRequest,
};
use rand::{thread_rng, Rng};

fn random_ints(d: usize) -> Vec<i32> {
    let mut rng = thread_rng();
    (0..d).map(|_| rng.gen::<i32>()).collect::<Vec<i32>>()
}

fn random_bytes(d: usize) -> Vec<u8> {
    let mut rng = thread_rng();
    (0..d).map(|_| rng.gen::<u8>()).collect::<Vec<u8>>()
}

fn request(input: Input) -> RpcPredictRequest {
    RpcPredictRequest { input: input, recv_time: time::PreciseTime::now() }
}

fn ints(v: Vec<i32>, length: i32) -> RpcPredictRequest {
    request(Input::Ints { i: v, length: length })
}

fn bytes(v: Vec<u8>, length: i32) -> RpcPredictRequest {
    request(Input::Bytes { b: v, length: length })
}

fn floats(v: Vec<f64>, length: i32) -> RpcPredictRequest {
    request(Input::Floats { f: v.iter().map(|x| x.to_bits()).collect(), length: length })
}

fn string(s: &str) -> RpcPredictRequest {
    request(Input::Str { s: s.to_string() })
}

#[test]
fn fixed_ints() {
    let mut rng = thread_rng();
    let inp_length = rng.gen_range(0usize, 3000);
    let mut reqs: Vec<RpcPredictRequest> = Vec::new();
    let mut orig_inputs = Vec::new();
    for _ in 0..7 {
        let v = random_ints(inp_length);
        orig_inputs.push(v.clone());
        reqs.push(ints(v, inp_length as i32));
    }
    let mut encoded_ints = encode_fixed_ints(&reqs, inp_length as i32);
    let decoded_vecs = decode_fixed_ints(&mut encoded_ints);
    assert_eq!(decoded_vecs.len(), 7);
    for i in 0..decoded_vecs.len() {
        assert_eq!(&decoded_vecs[i][..], &orig_inputs[i][..]);
    }
}

#[test]
fn var_ints() {
    let mut reqs: Vec<RpcPredictRequest> = Vec::new();
    let mut orig_inputs = Vec::new();
    let mut rng = thread_rng();
    for _ in 0..7 {
        let inp_length = rng.gen_range(0usize, 3000);
        let v = random_ints(inp_length);
        orig_inputs.push(v.clone());
        reqs.push(ints(v, -1));
    }
    let mut encoded_ints = encode_var_ints(&reqs);
    let decoded_vecs = decode_var_ints(&mut encoded_ints);
    assert_eq!(decoded_vecs.len(), 7);
    for i in 0..decoded_vecs.len() {
        assert_eq!(&decoded_vecs[i][..], &orig_inputs[i][..]);
    }
}

#[test]
fn fixed_bytes() {
    let mut rng = thread_rng();
    let inp_length = rng.gen_range(0usize, 3000);
    let mut reqs: Vec<RpcPredictRequest> = Vec::new();
    let mut orig_inputs = Vec::new();
    for _ in 0..7 {
        let v = random_bytes(inp_length);
        orig_inputs.push(v.clone());
        reqs.push(bytes(v, inp_length as i32));
    }
    let mut encoded_bytes = encode_fixed_bytes(&reqs, inp_length as i32);
    let decoded_bytes = decode_fixed_bytes(&mut encoded_bytes);
    for i in 0..decoded_bytes.len() {
        assert_eq!(&decoded_bytes[i][..], &orig_inputs[i][..]);
    }
}

#[test]
fn var_bytes() {
    let mut reqs: Vec<RpcPredictRequest> = Vec::new();
    let mut orig_inputs = Vec::new();
    let mut rng = thread_rng();
    for _ in 0..7 {
        let inp_length = rng.gen_range(0usize, 3000);
        let v = random_bytes(inp_length);
        orig_inputs.push(v.clone());
        reqs.push(bytes(v, -1));
    }
    let mut encoded_bytes = encode_var_bytes(&reqs);
    let decoded_bytes = decode_var_bytes(&mut encoded_bytes);
    assert_eq!(decoded_bytes.len(), 7);
    for i in 0..decoded_bytes.len() {
        assert_eq!(&decoded_bytes[i][..], &orig_inputs[i][..]);
    }
}

#[test]
fn strings() {
    let mut reqs: Vec<RpcPredictRequest> = Vec::new();
    let mut strs = Vec::new();
    strs.push("cats");
    strs.push("afsdiofjsdoifssd");
    strs.push("92842jcwf*0azxm$$__ ");
    strs.push("oceanic\n");
    strs.push("");
    for x in strs.iter() {
        reqs.push(string(x));
    }
    let mut encoded_strs = encode_strs(&reqs);
    let decoded_strs = decode_strs(&mut encoded_strs);
    assert_eq!(decoded_strs.len(), strs.len());
    for i in 0..decoded_strs.len() {
        assert_eq!(&decoded_strs[i][..], &strs[i][..]);
    }
}

#[test]
fn fixed_ints_exact_bytes() {
    let reqs = vec![ints(vec![1, -2], 2), ints(vec![258, 0], 2)];
    let message = encode_fixed_ints(&reqs, 2);
    assert_eq!(
        message,
        vec![
            1, 2, 0, 0, 0, 2, 0, 0, 0, 1, 0, 0, 0, 0xfe, 0xff, 0xff, 0xff, 2, 1, 0, 0, 0, 0, 0, 0,
        ]
    );
}

#[test]
fn fixed_ints_header_keeps_declared_length() {
    // The declared length goes in the header even where an input is shorter.
    let reqs = vec![ints(vec![9], 3)];
    let message = encode_fixed_ints(&reqs, 3);
    assert_eq!(message, vec![1, 1, 0, 0, 0, 3, 0, 0, 0, 9, 0, 0, 0]);
}

#[test]
fn var_ints_exact_bytes() {
    let reqs = vec![ints(vec![7], -1), ints(vec![], -1)];
    let message = encode_var_ints(&reqs);
    assert_eq!(
        message,
        vec![4, 2, 0, 0, 0, 12, 0, 0, 0, 1, 0, 0, 0, 7, 0, 0, 0, 0, 0, 0, 0]
    );
}

#[test]
fn fixed_bytes_exact_bytes() {
    let reqs = vec![bytes(vec![1, 2], 2), bytes(vec![3, 4], 2)];
    let message = encode_fixed_bytes(&reqs, 2);
    assert_eq!(message, vec![3, 2, 0, 0, 0, 2, 0, 0, 0, 1, 2, 3, 4]);
}

#[test]
fn var_bytes_exact_bytes() {
    let reqs = vec![bytes(vec![0xaa], -1), bytes(vec![0xbb, 0xcc], -1)];
    let message = encode_var_bytes(&reqs);
    assert_eq!(
        message,
        vec![6, 2, 0, 0, 0, 11, 0, 0, 0, 1, 0, 0, 0, 0xaa, 2, 0, 0, 0, 0xbb, 0xcc]
    );
}

#[test]
fn fixed_floats_exact_bytes() {
    let reqs = vec![floats(vec![1.5], 1)];
    let message = encode_fixed_floats(&reqs, 1);
    let mut want = vec![2, 1, 0, 0, 0, 1, 0, 0, 0];
    want.extend_from_slice(&1.5f64.to_le_bytes());
    assert_eq!(message, want);
}

#[test]
fn var_floats_exact_bytes() {
    let reqs = vec![floats(vec![-2.0, 0.25], -1)];
    let message = encode_var_floats(&reqs);
    let mut want = vec![5, 1, 0, 0, 0, 20, 0, 0, 0, 2, 0, 0, 0];
    want.extend_from_slice(&(-2.0f64).to_le_bytes());
    want.extend_from_slice(&0.25f64.to_le_bytes());
    assert_eq!(message, want);
}

#[test]
fn decode_fixed_ints_reads_header_counts() {
    let mut message = vec![1, 2, 0, 0, 0, 1, 0, 0, 0, 5, 0, 0, 0, 0xff, 0xff, 0xff, 0xff, 99];
    let decoded = decode_fixed_ints(&mut message);
    assert_eq!(decoded, vec![vec![5], vec![-1]]);
}

#[test]
fn decode_var_ints_ignores_content_length() {
    let mut message = vec![4, 1, 0, 0, 0, 0xee, 0xee, 0, 0, 2, 0, 0, 0, 3, 0, 0, 0, 4, 0, 0, 0, 1];
    let decoded = decode_var_ints(&mut message);
    assert_eq!(decoded, vec![vec![3, 4]]);
}

#[test]
fn decode_fixed_bytes_exact() {
    let mut message = vec![3, 2, 0, 0, 0, 3, 0, 0, 0, 1, 2, 3, 4, 5, 6];
    let decoded = decode_fixed_bytes(&mut message);
    assert_eq!(decoded, vec![vec![1, 2, 3], vec![4, 5, 6]]);
}

#[test]
fn decode_var_bytes_exact() {
    let mut message = vec![6, 2, 0, 0, 0, 0, 0, 0, 0, 0, 0, 0, 0, 1, 0, 0, 0, 42];
    let decoded = decode_var_bytes(&mut message);
    assert_eq!(decoded, vec![vec![], vec![42]]);
}

#[test]
fn strings_header_and_lengths() {
    let reqs = vec![string("héllo"), string("ab")];
    let message = encode_strs(&reqs);
    assert_eq!(message[0], 7);
    assert_eq!(&message[1..5], &[2, 0, 0, 0]);
    let content = u32::from_le_bytes([message[5], message[6], message[7], message[8]]) as usize;
    assert_eq!(content, message.len() - 9);
    assert_eq!(&message[9..13], &[6, 0, 0, 0]);
    assert_eq!(&message[13..17], &[2, 0, 0, 0]);
    // The payload after the lengths is compressed, not the raw text.
    let payload = strs_payload_bytes(&reqs);
    assert_eq!(payload, b"h\xc3\xa9lloab\n".to_vec());
    assert_ne!(&message[17..], &payload[..]);
}

#[test]
fn strings_roundtrip_unicode() {
    let strs = vec!["żółw", "", "日本語", "tab\tand\nnewline"];
    let reqs: Vec<RpcPredictRequest> = strs.iter().map(|s| string(s)).collect();
    let mut message = encode_strs(&reqs);
    assert!(strs_decodable(&message));
    let decoded = try_decode_strs(&mut message).unwrap();
    assert_eq!(decoded, strs.iter().map(|s| s.to_string()).collect::<Vec<String>>());
}

#[test]
fn strings_not_decodable() {
    let mut garbage = vec![7, 1, 0, 0, 0, 0, 0, 0, 0, 3, 0, 0, 0, 1, 2, 3];
    assert!(!strs_decodable(&garbage));
    assert!(try_decode_strs(&mut garbage).is_none());
    let mut short = vec![7, 9, 0, 0, 0, 0, 0, 0, 0];
    assert!(try_decode_strs(&mut short).is_none());
    let mut wrong_code = vec![6, 0, 0, 0, 0, 0, 0, 0, 0];
    assert!(try_decode_strs(&mut wrong_code).is_none());
}

#[test]
fn frame_strs_keeps_payload() {
    let reqs = vec![string("xyz")];
    let message = frame_strs(&reqs, &vec![9, 8]);
    assert_eq!(message, vec![7, 1, 0, 0, 0, 6, 0, 0, 0, 3, 0, 0, 0, 9, 8]);
}

#[test]
fn split_strs_cases() {
    let pieces = split_strs(b"abcdeXYZ".to_vec(), &vec![2, 3]).unwrap();
    assert_eq!(pieces, vec!["ab".to_string(), "cde".to_string()]);
    assert!(split_strs(b"abc".to_vec(), &vec![2, 2]).is_none());
    assert!(split_strs(vec![0xff, 0xfe], &vec![2]).is_none());
    assert_eq!(split_strs(Vec::new(), &Vec::new()), Some(Vec::new()));
}

#[test]
fn encode_batch_dispatches_on_input_type() {
    let int_reqs = vec![ints(vec![1, 2], 2)];
    assert_eq!(encode_batch(&int_reqs, &InputType::Integer(2)), encode_fixed_ints(&int_reqs, 2));
    assert_eq!(encode_batch(&int_reqs, &InputType::Integer(-1)), encode_var_ints(&int_reqs));
    let byte_reqs = vec![bytes(vec![1], 1)];
    assert_eq!(encode_batch(&byte_reqs, &InputType::Byte(1)), encode_fixed_bytes(&byte_reqs, 1));
    assert_eq!(encode_batch(&byte_reqs, &InputType::Byte(-3)), encode_var_bytes(&byte_reqs));
    let float_reqs = vec![floats(vec![0.5], 1)];
    assert_eq!(
        encode_batch(&float_reqs, &InputType::Float(1)),
        encode_fixed_floats(&float_reqs, 1)
    );
    assert_eq!(encode_batch(&float_reqs, &InputType::Float(-1)), encode_var_floats(&float_reqs));
    let str_reqs = vec![string("a")];
    assert_eq!(encode_batch(&str_reqs, &InputType::Str), encode_strs(&str_reqs));
}

#[test]
fn shutdown_protocol() {
    assert_eq!(shutdown_message(), vec![0, 0, 0, 0, 0]);
    assert!(is_shutdown_ack(&vec![0xd2, 0x04, 0, 0]));
    assert!(!is_shutdown_ack(&vec![0x04, 0xd2, 0, 0]));
    assert!(!is_shutdown_ack(&vec![0, 0, 0, 0]));
}
