pub mod test_config;
