use panaud::ops::resample::{resample_chunks, ResampleOp};

#[test]
fn zero_rate_errors() {
    assert!(ResampleOp::new(0).is_err());
}

#[test]
fn resample_texts_and_identity() {
    let op = ResampleOp::new(48000).unwrap();
    assert_eq!(op.description(), "Resample to 48000 Hz");
    assert!(op.is_identity(48000));
    assert!(!op.is_identity(44100));
}

#[test]
fn chunks_cover_the_frames() {
    let chunks = resample_chunks(2500, 1024);
    assert_eq!(chunks.len(), 3);
    assert_eq!((chunks[0].start, chunks[0].end, chunks[0].partial), (0, 1024, false));
    assert_eq!((chunks[2].start, chunks[2].end, chunks[2].partial), (2048, 2500, true));
    let exact = resample_chunks(2048, 1024);
    assert_eq!(exact.len(), 2);
    assert!(!exact[1].partial);
    assert!(resample_chunks(0, 1024).is_empty());
}
