pub mod gc_work;
