# hypai_ants

The decision logic of a voice-assistant swarm whose processes ("ants") talk
over an iceoryx2 bus: phone gateways, μ-law conversion, voice activity
detection, speech-to-text and text-to-speech adapters, a language-model ant,
a mode router, a browser-assistant bridge and a dispatcher that hands frames
out to critics and collects their answers.

`src/` is the library, verified with Verus. Every public function states in
its contract what it returns or changes; the laws that span several calls are
public proof functions:

- `digi::lemma_drain_conserves`: draining phone audio loses and invents no byte;
- `codec::lemma_count_header_roundtrip`: sample-count headers read back;
- `call::lemma_decoder_reads_standard_base64`, `call::lemma_decoder_reads_unpadded_base64`:
  the dispatcher's decoder inverts standard base64, with or without padding;
- `plaza::lemma_decode_ignores_white_space`: white space in base64 content changes nothing;
- `dispatch::lemma_review_queue_exact`: a new cycle queues exactly the online
  critics, in configuration order;
- `dispatch::lemma_callback_counts_once`: a repeated callback does not advance
  the cycle twice;
- `scrape::lemma_publishing_is_bounded`: publishing a scraped answer runs at
  most three pull–add–commit–push rounds and nothing after a successful push;
- `airy::lemma_airy_answer_is_confirmed`: the assistant's answer is a
  confirming read longer than five bytes;
- `llm::lemma_history_keeps_newest`: the conversation history is the ten newest exchanges;
- `router::lemma_bridge_follows_mode`, `router::lemma_mode_name_roundtrip`;
- `transcript::lemma_typed_text_is_clean`: typed text holds no recogniser noise;
- `tts::lemma_split_sentences_keeps_text`: speech chunks put together are the text;
- `tts::lemma_split_sentences_nonempty`, `tts::lemma_split_sentences_fit`: chunks
  are never empty for non-empty text, and each is at most 300 bytes unless it
  holds nowhere to split.

`app/` is the program around the library: one subcommand per ant
(`hypai-ants <ant> [arguments]`), with the bus, HTTP, websocket, audio
device, process and floating-point work that the library does not hold.

`tests/` exercises the library on concrete values.
