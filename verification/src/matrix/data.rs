//! The bundled datasets, so an offline machine always has a snapshot.

use vstd::prelude::*;

verus! {

/// The minimum driver for each CUDA release.
pub const NVIDIA_JSON: &'static str = r#"{
  "schema_version": 1,
  "drivers": [
    { "cuda": "11.8", "min_driver_linux": "520.61.05", "min_driver_windows": "522.06" },
    { "cuda": "12.0", "min_driver_linux": "525.60.13", "min_driver_windows": "527.41" },
    { "cuda": "12.1", "min_driver_linux": "530.30.02", "min_driver_windows": "531.14" },
    { "cuda": "12.2", "min_driver_linux": "535.54.03", "min_driver_windows": "536.25" },
    { "cuda": "12.3", "min_driver_linux": "545.23.06", "min_driver_windows": "545.84" },
    { "cuda": "12.4", "min_driver_linux": "550.54.14", "min_driver_windows": "551.61" },
    { "cuda": "12.5", "min_driver_linux": "555.42.02", "min_driver_windows": "555.85" },
    { "cuda": "12.6", "min_driver_linux": "560.28.03", "min_driver_windows": "560.76" },
    { "cuda": "12.8", "min_driver_linux": "570.26", "min_driver_windows": "570.65" },
    { "cuda": "12.9", "min_driver_linux": "575.51.03", "min_driver_windows": "576.02" }
  ]
}
"#;

/// The CUDA builds of each torch release and what each tensorflow release needs.
pub const FRAMEWORKS_JSON: &'static str = r#"{
  "schema_version": 1,
  "torch": {
    "cpu_index_url": "https://download.pytorch.org/whl/cpu",
    "cuda_index_url_pattern": "https://download.pytorch.org/whl/{tag}",
    "releases": [
      { "version": "2.1.0", "cuda_builds": ["cu118", "cu121"] },
      { "version": "2.2.0", "cuda_builds": ["cu118", "cu121"] },
      { "version": "2.3.0", "cuda_builds": ["cu118", "cu121"] },
      { "version": "2.4.0", "cuda_builds": ["cu118", "cu121", "cu124"] },
      { "version": "2.5.0", "cuda_builds": ["cu118", "cu121", "cu124"] },
      { "version": "2.6.0", "cuda_builds": ["cu118", "cu124", "cu126"] },
      { "version": "2.7.0", "cuda_builds": ["cu118", "cu126", "cu128"] },
      { "version": "2.8.0", "cuda_builds": ["cu126", "cu128", "cu129"] }
    ]
  },
  "tensorflow": {
    "releases": [
      { "version": "2.13.0", "min_cuda": "11.8" },
      { "version": "2.14.0", "min_cuda": "11.8" },
      { "version": "2.15.0", "min_cuda": "12.2" },
      { "version": "2.16.1", "min_cuda": "12.3" },
      { "version": "2.17.0", "min_cuda": "12.3" },
      { "version": "2.18.0", "min_cuda": "12.5" },
      { "version": "2.19.0", "min_cuda": "12.5" }
    ]
  }
}
"#;

/// Import names that differ from the distribution that provides them.
pub const IMPORT_MAP_JSON: &'static str = r#"{
  "schema_version": 1,
  "map": {
    "attr": "attrs",
    "bs4": "beautifulsoup4",
    "Crypto": "pycryptodome",
    "cv2": "opencv-python",
    "dateutil": "python-dateutil",
    "discord": "discord.py",
    "docx": "python-docx",
    "dotenv": "python-dotenv",
    "fitz": "PyMuPDF",
    "git": "GitPython",
    "googleapiclient": "google-api-python-client",
    "jose": "python-jose",
    "jwt": "PyJWT",
    "magic": "python-magic",
    "mpl_toolkits": "matplotlib",
    "multipart": "python-multipart",
    "MySQLdb": "mysqlclient",
    "OpenGL": "PyOpenGL",
    "OpenSSL": "pyOpenSSL",
    "PIL": "pillow",
    "pkg_resources": "setuptools",
    "pptx": "python-pptx",
    "psycopg2": "psycopg2-binary",
    "rest_framework": "djangorestframework",
    "serial": "pyserial",
    "skimage": "scikit-image",
    "sklearn": "scikit-learn",
    "slugify": "python-slugify",
    "socketio": "python-socketio",
    "telegram": "python-telegram-bot",
    "usb": "pyusb",
    "win32api": "pywin32",
    "wx": "wxPython",
    "yaml": "PyYAML",
    "zmq": "pyzmq"
  }
}
"#;

} // verus!
