mod clock;
mod codec;
mod errors;
mod journal;
mod render;
mod task;

pub use codec::all_encodable;
pub use codec::collect_tasks;
pub use codec::encode_tasks;
pub use codec::lemma_add_appends;
pub use codec::lemma_encode_snoc;
pub use codec::lemma_round_trip;
pub use codec::spec_decode;
pub use codec::spec_encode;
pub use codec::spec_encode_task;
pub use codec::task_encodable;
pub use codec::views;
pub use errors::JournalError;
pub use journal::add_task;
pub use journal::complete_task;
pub use journal::line_matches;
pub use journal::list_tasks;
pub use journal::spec_empty_message;
pub use render::append_decimal;
pub use render::pad_text;
pub use render::render_task_line;
pub use render::spec_decimal;
pub use render::spec_digit;
pub use render::spec_line;
pub use render::spec_padded;
pub use task::Task;
pub use task::TaskView;
