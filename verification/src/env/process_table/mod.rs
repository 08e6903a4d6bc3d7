pub mod running_process;
