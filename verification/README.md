# audio_capture

Core of a microphone capture addon that delivers 16 kHz, 16-bit PCM mono
audio, verified with Verus.

- `src/normalizer.rs`: the resampling schedule. Time is kept exactly in
  integer units; for each chunk of interleaved input it says which mono
  samples every 16 kHz output sample is interpolated from and with which
  weight. Laws: weights lie in `(0, 1]`, chunking does not change the
  schedule, 16 kHz input passes through, integer-factor input rates keep every
  n-th sample.
- `src/ring.rs`: the bounded FIFO (a `ringbuf` heap ring buffer of 32000
  samples) between the audio callback and the delivery thread.
- `src/capture.rs`: device selection, errors and their messages, the audio
  thread's command handling, the start handshake, the device list and the
  delivery thread's draining step.
- `app/`: the Node.js addon (napi), the cpal streams, the threads, and the
  floating-point sample arithmetic that follows the verified schedule.
