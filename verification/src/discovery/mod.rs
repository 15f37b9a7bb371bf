pub mod udp_discover;
