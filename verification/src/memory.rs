pub mod orders;
pub mod elevator;
pub mod hall_order_queue;
pub mod world_view;
pub mod memory_events;
