use ai::embeddings::Base64EmbeddingData;

#[test]
fn embedding_bytes_become_base64() {
    let d = Base64EmbeddingData::from_le_bytes("embedding".to_string(), &vec![1u8, 2, 3], 4);
    assert_eq!(d.embedding, "AQID");
    assert_eq!(d.object, "embedding");
    assert_eq!(d.index, 4);
    let bytes: Vec<u8> = 1.5f64.to_le_bytes().to_vec();
    let d = Base64EmbeddingData::from_le_bytes("embedding".to_string(), &bytes, 0);
    assert_eq!(d.embedding, "AAAAAAAA+D8=");
    let d = Base64EmbeddingData::from_le_bytes("embedding".to_string(), &vec![], 0);
    assert_eq!(d.embedding, "");
}
