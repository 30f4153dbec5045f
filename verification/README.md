# xr819_tx

Verified transmit-path logic of an XR819 low-MAC firmware, written in Verus.

Every executor reaches hardware only through the `MacPipeMmio` trait
(`src/mmio.rs`). Its contract records each access in a ghost trace, so an
executor's contract states the exact sequence of reads and writes it makes,
each written value given in terms of the values read. Decisions that the
firmware leaves to other subsystems (rate recovery, backoff, completion
callbacks) go through small policy traits whose calls are recorded the same
way.

Layout:

- `registers`, `offset`, `context`, `packet_ram`: the DTCM, MAC and
  packet-RAM layout the executors address, and TX-context field addresses.
- `plans`, `mac_event`, `block_ack`, `tala`, `phy`, `host_tx`: pure
  decisions: event decoding, status plans, retry bounds, A-MPDU planning,
  frame classification, host-frame phases.
- `pipe_exec`, `service_exec`, `retry_exec`, `rearm`, `staged`,
  `status_exec`, `watchdog_exec`, `live_slot`: the MAC pipe executors.
- `event_loop`, `mac_effects`, `drain_tail`: MAC event servicing.
- `completion`, `completion_ring`, `completion_enqueue`, `context_dispatch`,
  `context_return`, `probe_backend`, `tracker`: completion delivery and the
  probe frame's ownership tracker.
- `tala_update`, `rate_retry`: per-completion A-MPDU length adaptation and
  the rate policy's retry answers used by the single-frame retry decision
  (`SingleProbeMacBackend::decide_single_retry`).
- `slot_policy`: the TX status policy that completes slots with
  `complete_tx_pipe_slot`.
- `completion_drain`: the drain of the completion ring, which takes exactly
  the frames queued when it begins and hands each back once, in order.
- `slot_completion`, `aggregate_answer`: completing a transmitted slot, its
  frame chain, and the BlockAck that answers an aggregate.
- `pas_ring`, `host_pool`, `host_context`, `timer_list`, `frame_copy`,
  `probe`, `ampdu`: rings, pools, lists and frame images.

`app/` holds the volatile MMIO implementation and the raw entry points that
run the verified executors on the hardware.
