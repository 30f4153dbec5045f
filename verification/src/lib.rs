//! Verified transmit-path logic of an XR819 low-MAC firmware.

pub mod block_ack;
pub mod context;
pub mod offset;
pub mod packet_ram;
pub mod phy;
pub mod registers;
pub mod mmio;
pub mod mac_event;
pub mod pipe_exec;
pub mod plans;
pub mod host_tx;
pub mod pas_ring;
pub mod host_pool;
pub mod host_context;
pub mod tracker;
pub mod retry_exec;
pub mod rearm;
pub mod service_exec;
pub mod event_loop;
pub mod completion;
pub mod live_slot;
pub mod timer_list;
pub mod mac_effects;
pub mod probe;
pub mod staged;
pub mod tala;
pub mod status_exec;
pub mod completion_ring;
pub mod probe_backend;
pub mod ampdu;
pub mod watchdog_exec;
pub mod drain_tail;
pub mod frame_copy;
pub mod completion_enqueue;
pub mod context_return;
pub mod context_dispatch;
pub mod slot_completion;
pub mod aggregate_answer;
pub mod completion_drain;
pub mod rate_retry;
pub mod tala_update;
pub mod slot_policy;
