pub mod mmio;
pub mod pl011;
pub mod virtio;
