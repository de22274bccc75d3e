use fallen_world_launcher::services::system_monitor::SystemMonitor;

#[test]
fn cpu_names_lose_their_marketing_cruft() {
    assert_eq!(SystemMonitor::clean_cpu_name("AMD Ryzen 5 9600X 6-Core Processor"), "AMD Ryzen 5 9600X");
    assert_eq!(SystemMonitor::clean_cpu_name("Intel(R) Core(TM) i7-8700K CPU @ 3.70GHz"), "Intel Core i7-8700K");
    assert_eq!(SystemMonitor::clean_cpu_name("  AMD  Ryzen 7 5800X3D 8-Core Processor   "), "AMD Ryzen 7 5800X3D");
    assert_eq!(SystemMonitor::clean_cpu_name("AMD Ryzen 7 7840HS w/ Radeon 780M Graphics"), "AMD Ryzen 7 7840HS");
    assert_eq!(SystemMonitor::clean_cpu_name("Apple M2 with 8-core GPU"), "Apple M2");
    assert_eq!(SystemMonitor::clean_cpu_name("12-Core"), "12-Core");
    assert_eq!(SystemMonitor::clean_cpu_name(""), "");
}
