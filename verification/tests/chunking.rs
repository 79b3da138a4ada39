use jan_gateway::chunking::{ChunkingConfig, EmbeddingsGenerator, TextProcessor};

#[test]
fn test_generate_id() {
    let embeddings = EmbeddingsGenerator::new();
    let processor = TextProcessor::new(embeddings, ChunkingConfig::default());

    let id1 = processor.generate_id("test");
    let id2 = processor.generate_id("test");
    let id3 = processor.generate_id("different");

    assert_eq!(id1, id2); // Same input should generate same ID
    assert_ne!(id1, id3); // Different input should generate different ID
    assert_eq!(id1.len(), 64); // SHA256 hex string length
}

#[test]
fn test_generate_id_known_digest() {
    let embeddings = EmbeddingsGenerator::new();
    let processor = TextProcessor::new(embeddings, ChunkingConfig::default());

    // the well-known SHA-256 digests of "test" and of the empty string
    assert_eq!(
        processor.generate_id("test"),
        "9f86d081884c7d659a2feaa0c55ad015a3bf4f1b2b0b822cd15d6c15b0f00a08"
    );
    assert_eq!(
        processor.generate_id(""),
        "e3b0c44298fc1c149afbf4c8996fb92427ae41e4649b934ca495991b7852b855"
    );
}

#[test]
fn test_create_smart_chunks() {
    let embeddings = EmbeddingsGenerator::new();
    let processor = TextProcessor::new(embeddings, ChunkingConfig::default());

    let content = "This is a test. This is another sentence. And this is a third one. Finally, this is the last sentence.";
    let chunks = processor.create_smart_chunks(content, 50, 10);

    assert!(!chunks.is_empty());
    assert!(chunks.len() >= 2); // Should split into multiple chunks

    for chunk in &chunks {
        assert!(!chunk.is_empty());
        assert!(chunk.len() <= 80); // Should respect approximate size limits
    }
}

#[test]
fn test_empty_content() {
    let embeddings = EmbeddingsGenerator::new();
    let processor = TextProcessor::new(embeddings, ChunkingConfig::default());

    let chunks = processor.create_smart_chunks("", 100, 10);
    assert!(chunks.is_empty());
}

#[test]
fn test_short_content() {
    let embeddings = EmbeddingsGenerator::new();
    let processor = TextProcessor::new(embeddings, ChunkingConfig::default());

    let content = "Short text.";
    let chunks = processor.create_smart_chunks(content, 100, 10);

    assert_eq!(chunks.len(), 1);
    assert_eq!(chunks[0], content);
}

#[test]
fn test_chunking_config_update() {
    let embeddings = EmbeddingsGenerator::new();
    let mut processor = TextProcessor::new(embeddings, ChunkingConfig::default());

    let new_config = ChunkingConfig { chunk_size: 500, overlap: 50 };

    processor.update_chunking_config(new_config.clone());
    assert_eq!(processor.get_chunking_config().chunk_size, 500);
    assert_eq!(processor.get_chunking_config().overlap, 50);
}

#[test]
fn test_smart_boundary_detection() {
    let embeddings = EmbeddingsGenerator::new();
    let processor = TextProcessor::new(embeddings, ChunkingConfig { chunk_size: 30, overlap: 5 });

    let content = "This is a sentence. This is another sentence. And this continues.";
    let chunks = processor.create_smart_chunks(content, 30, 5);

    // Should split at sentence boundaries when possible
    for chunk in &chunks {
        // Check that chunks don't end in the middle of words
        if !chunk.ends_with('.') && !chunk.ends_with('!') && !chunk.ends_with('?') {
            assert!(chunk.ends_with(' ') || chunk.chars().last().unwrap().is_ascii_whitespace());
        }
    }
}

#[test]
fn test_chunks_trimmed_and_bounded() {
    let embeddings = EmbeddingsGenerator::new();
    let processor = TextProcessor::new(embeddings, ChunkingConfig::default());

    let content = "  One two three four five six seven eight nine ten.   More words follow here.  ";
    let chunks = processor.create_smart_chunks(content, 20, 4);

    for chunk in &chunks {
        assert!(!chunk.is_empty());
        assert!(!chunk.starts_with(' '));
        assert!(!chunk.ends_with(' '));
        assert!(chunk.chars().count() <= 20);
    }
}

#[test]
fn test_whitespace_only_content() {
    let embeddings = EmbeddingsGenerator::new();
    let processor = TextProcessor::new(embeddings, ChunkingConfig::default());

    let chunks = processor.create_smart_chunks("   \t\n  ", 10, 2);
    assert!(chunks.is_empty());
}

#[test]
fn test_default_config_values() {
    let config = ChunkingConfig::default();
    assert!(config.overlap < config.chunk_size);
}
