use vstd::prelude::*;

mod engine;
mod laws;
mod frame;
mod render;
mod table;

pub use engine::{action_for, should_redraw, spec_action, spec_apply, spec_step_frame, spec_should_redraw, Action, AppCore, CoreModel, FrameEvent, KeyInput, KeySym, RENDER_INTERVAL_MICROS};
pub use frame::FrameRecord;
pub use laws::{spec_run, spec_step, lemma_run_preserves_wf, UiEvent, table_wf, lemma_record_preserves_wf, lemma_process_wf, lemma_sort_preserves_wf, lemma_process_entry, lemma_interval_is_time_difference, lemma_clear_erases_history, lemma_paused_is_frozen, lemma_sort_idempotent, lemma_sort_by_id_stable, lemma_sort_by_id_sorted, lemma_sort_identity_on_sorted, spec_process, spec_process_from, spec_times_of_key, times_nondecreasing, id_sorted, with_id, spec_cleared};
pub use render::{digit_char, spec_byte_hex, spec_dec, spec_entry_line, spec_fixed_micros, spec_header, spec_hex, spec_id_field, spec_max_scroll, spec_pad_right, spec_pad_zeros, spec_payload_hex, spec_repeat, DisplayLine, entry_line, fmt_byte_hex, fmt_fixed_micros, fmt_id_field, fmt_payload_hex, fmt_u32_hex, fmt_u64_dec, header_line, max_scroll, render_lines};
pub use table::{find_key, insert_by_id, map_entries, sat_inc64, sat_sub64, sort_by_id, spec_record, AggEntry, AggTable};
