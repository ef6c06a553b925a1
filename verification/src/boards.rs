pub mod qemu_virt;
