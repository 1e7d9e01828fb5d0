//! The audio pass-through.

use audio_transcription::audio_processor::AudioProcessor;

#[test]
fn optimize_returns_bytes_unchanged() {
    let p = AudioProcessor::new();
    let data = vec![1u8, 2, 3, 255, 0];
    assert_eq!(p.optimize_for_whatsapp(&data), vec![1u8, 2, 3, 255, 0]);
}

#[test]
fn optimize_empty() {
    let p = AudioProcessor::new();
    let data: Vec<u8> = vec![];
    assert_eq!(p.optimize_for_whatsapp(&data), Vec::<u8>::new());
}
